//! The consensus engine: merges overlapping findings, passes unique ones
//! through, and produces a report sorted by severity, then by descending
//! confidence.
use vstd::prelude::*;

use crate::buckets::{
    buckets, is_first_match, lemma_buckets_multiset,
    lemma_buckets_well_formed, lemma_first_bucket_is, lemma_first_bucket_none,
    lemma_nonempty_pieces_len,
};
use crate::ids::{new_id, now_millis};
use crate::models::{
    contents, finding_content, ConsensusResult, Finding, FindingCategory, FindingContent, Severity,
    CONFIDENCE_SCALE,
};
use crate::text::{
    chars_of, common_prefix_len, common_prefix_len_exec, contains, contains_chars, join,
    join_chars, lowercase, string_of, to_lowercase,
};

verus! {

broadcast use vstd::seq_lib::group_to_multiset_ensures;

// ── Specification ───────────────────────────────────────────────────

/// The indices `0, 1, ..., n - 1`.
pub open spec fn index_seq(n: nat) -> Seq<usize> {
    Seq::new(n, |i: int| i as usize)
}

/// The buckets as sequences of indices.
pub open spec fn nested(v: Seq<Vec<usize>>) -> Seq<Seq<usize>> {
    v.map_values(|b: Vec<usize>| b@)
}

/// The characters of each character vector.
pub open spec fn char_views(v: Seq<Vec<char>>) -> Seq<Seq<char>> {
    v.map_values(|b: Vec<char>| b@)
}

/// Two findings (by index) share a category.
pub open spec fn category_rel(fs: Seq<FindingContent>) -> spec_fn(usize, usize) -> bool {
    |a: usize, b: usize| fs[a as int].category == fs[b as int].category
}

/// Two lower-cased descriptions are similar: one contains the other, or they
/// share a prefix of at least 20 characters.
pub open spec fn similar_lowered(a: Seq<char>, b: Seq<char>) -> bool {
    contains(a, b) || contains(b, a) || common_prefix_len(a, b) >= 20
}

/// Two descriptions are similar once lower-cased.
pub open spec fn similar_spec(a: Seq<char>, b: Seq<char>) -> bool {
    similar_lowered(lowercase(a), lowercase(b))
}

/// Two findings (by index) have similar lower-cased descriptions.
pub open spec fn similarity_rel(lowered: Seq<Seq<char>>) -> spec_fn(usize, usize) -> bool {
    |a: usize, b: usize| similar_lowered(lowered[a as int], lowered[b as int])
}

/// The findings grouped by category, groups in order of first appearance.
pub open spec fn category_groups(fs: Seq<FindingContent>) -> Seq<Seq<usize>> {
    buckets(index_seq(fs.len()), category_rel(fs))
}

/// The clusters of each group: a finding joins the first cluster of its
/// group whose first finding it is similar to.
pub open spec fn group_clusters(fs: Seq<FindingContent>, lowered: Seq<Seq<char>>) -> Seq<Seq<Seq<usize>>> {
    bucket_each(category_groups(fs), similarity_rel(lowered))
}

/// Each group bucketed on its own.
pub open spec fn bucket_each(gs: Seq<Seq<usize>>, rel: spec_fn(usize, usize) -> bool) -> Seq<Seq<Seq<usize>>> {
    gs.map_values(|g: Seq<usize>| buckets(g, rel))
}

/// All clusters, group after group.
pub open spec fn consensus_clusters(fs: Seq<FindingContent>, lowered: Seq<Seq<char>>) -> Seq<Seq<usize>> {
    group_clusters(fs, lowered).flatten()
}

/// The highest severity (lowest rank) among the findings of a cluster.
pub open spec fn best_severity(fs: Seq<FindingContent>, c: Seq<usize>) -> Severity
    decreases c.len(),
{
    if c.len() <= 1 {
        fs[c[0] as int].severity
    } else {
        let b = best_severity(fs, c.drop_last());
        let x = fs[c.last() as int].severity;
        if x.rank() < b.rank() {
            x
        } else {
            b
        }
    }
}

/// The sum of the confidences of a cluster.
pub open spec fn confidence_sum(fs: Seq<FindingContent>, c: Seq<usize>) -> nat
    decreases c.len(),
{
    if c.len() == 0 {
        0
    } else {
        confidence_sum(fs, c.drop_last()) + fs[c.last() as int].confidence
    }
}

/// The finding that stands for a cluster: its first finding's category and
/// description, the highest severity, the mean confidence, all evidence
/// joined by `" | "` and all agents joined by `"+"`.
pub open spec fn merged_content(fs: Seq<FindingContent>, c: Seq<usize>) -> FindingContent {
    finding_content(
        best_severity(fs, c),
        fs[c[0] as int].category,
        fs[c[0] as int].description,
        join(c.map_values(|i: usize| fs[i as int].evidence), " | "@),
        confidence_sum(fs, c) / c.len(),
        join(c.map_values(|i: usize| fs[i as int].agent_id), "+"@),
    )
}

/// `a` comes strictly before `b` in a report: higher severity, or equal
/// severity and higher confidence.
pub open spec fn before(a: FindingContent, b: FindingContent) -> bool {
    a.severity.rank() < b.severity.rank() || (a.severity.rank() == b.severity.rank()
        && a.confidence > b.confidence)
}

/// `k` is the first position of `s` that `x` comes strictly before.
pub open spec fn is_insert_point(s: Seq<FindingContent>, x: FindingContent, k: int) -> bool {
    &&& 0 <= k < s.len()
    &&& before(x, s[k])
    &&& forall|j: int| 0 <= j < k ==> !before(x, #[trigger] s[j])
}

/// Where `x` goes into the sorted `s`: after everything it does not come
/// strictly before.
pub open spec fn insert_point(s: Seq<FindingContent>, x: FindingContent) -> int {
    if exists|k: int| is_insert_point(s, x, k) {
        choose|k: int| is_insert_point(s, x, k)
    } else {
        s.len() as int
    }
}

/// `s` sorted by severity, then by descending confidence; findings that
/// tie keep their order (a stable insertion sort).
pub open spec fn sort_by_priority(s: Seq<FindingContent>) -> Seq<FindingContent>
    decreases s.len(),
{
    if s.len() == 0 {
        s
    } else {
        let r = sort_by_priority(s.drop_last());
        r.insert(insert_point(r, s.last()), s.last())
    }
}

/// In report order: nothing comes strictly before an earlier item.
pub open spec fn priority_sorted(s: Seq<FindingContent>) -> bool {
    forall|i: int, j: int| 0 <= i < j < s.len() ==> !before(#[trigger] s[j], #[trigger] s[i])
}

/// The merged findings of a consensus run, in report order.
pub open spec fn consensus_findings(fs: Seq<FindingContent>, lowered: Seq<Seq<char>>) -> Seq<FindingContent> {
    sort_by_priority(
        consensus_clusters(fs, lowered).map_values(|c: Seq<usize>| merged_content(fs, c)),
    )
}

/// The share of `n` inputs merged away when `m` findings remain, in
/// millionths.
pub open spec fn agreement_rate(n: nat, m: nat) -> nat {
    if n == 0 {
        0
    } else {
        (((n - m) * (CONFIDENCE_SCALE as int)) / (n as int)) as nat
    }
}

// ── Lemmas ──────────────────────────────────────────────────────────

proof fn lemma_insert_point_is(s: Seq<FindingContent>, x: FindingContent, k: int)
    requires
        0 <= k <= s.len(),
        forall|j: int| 0 <= j < k ==> !before(x, #[trigger] s[j]),
        k < s.len() ==> before(x, s[k]),
    ensures
        insert_point(s, x) == k,
{
    if k < s.len() {
        assert(is_insert_point(s, x, k));
        let c = choose|c: int| is_insert_point(s, x, c);
        if c < k {
            assert(!before(x, s[c]));
        } else if c > k {
            assert(!before(x, s[k]));
        }
    } else {
        assert(!exists|c: int| is_insert_point(s, x, c));
    }
}

proof fn lemma_insert_point_range(s: Seq<FindingContent>, x: FindingContent)
    ensures
        0 <= insert_point(s, x) <= s.len(),
        forall|j: int| 0 <= j < insert_point(s, x) ==> !before(x, #[trigger] s[j]),
        insert_point(s, x) < s.len() ==> before(x, s[insert_point(s, x)]),
{
    if !exists|k: int| is_insert_point(s, x, k) {
        assert forall|j: int| 0 <= j < s.len() implies !before(x, #[trigger] s[j]) by {
            if before(x, s[j]) {
                let k = choose_first_before(s, x, j);
                assert(is_insert_point(s, x, k));
            }
        }
    }
}

/// Given some position that `x` comes before, there is a first one.
proof fn choose_first_before(s: Seq<FindingContent>, x: FindingContent, j: int) -> (k: int)
    requires
        0 <= j < s.len(),
        before(x, s[j]),
    ensures
        is_insert_point(s, x, k),
    decreases j,
{
    if exists|i: int| 0 <= i < j && before(x, #[trigger] s[i]) {
        let i = choose|i: int| 0 <= i < j && before(x, #[trigger] s[i]);
        choose_first_before(s, x, i)
    } else {
        j
    }
}

/// Sorting by priority yields report order and keeps every finding.
pub proof fn lemma_sort_by_priority(s: Seq<FindingContent>)
    ensures
        priority_sorted(sort_by_priority(s)),
        sort_by_priority(s).to_multiset() == s.to_multiset(),
        sort_by_priority(s).len() == s.len(),
    decreases s.len(),
{
    if s.len() > 0 {
        let r = sort_by_priority(s.drop_last());
        let x = s.last();
        lemma_sort_by_priority(s.drop_last());
        lemma_insert_point_range(r, x);
        let k = insert_point(r, x);
        let t = r.insert(k, x);
        assert forall|i: int, j: int| 0 <= i < j < t.len() implies !before(#[trigger] t[j], #[trigger] t[i]) by {
            if j < k {
                assert(t[i] == r[i] && t[j] == r[j]);
            } else if j == k {
                assert(t[i] == r[i]);
            } else if i < k {
                assert(t[j] == r[j - 1]);
                assert(t[i] == r[i]);
            } else if i == k {
                assert(t[j] == r[j - 1]);
                assert(before(x, r[k]));
                if j - 1 > k {
                    assert(!before(r[j - 1], r[k]));
                }
            } else {
                assert(t[j] == r[j - 1] && t[i] == r[i - 1]);
            }
        }
        vstd::seq_lib::to_multiset_insert(r, k, x);
        assert(s =~= s.drop_last().push(x));
    }
}

/// Every cluster is non-empty and related to its first finding, and
/// between them the clusters hold every input finding exactly once.
pub proof fn lemma_clusters_partition(fs: Seq<FindingContent>, lowered: Seq<Seq<char>>)
    ensures
        consensus_clusters(fs, lowered).flatten().to_multiset() == index_seq(fs.len()).to_multiset(),
        forall|k: int| 0 <= k < consensus_clusters(fs, lowered).len()
            ==> (#[trigger] consensus_clusters(fs, lowered)[k]).len() > 0,
        consensus_clusters(fs, lowered).len() <= fs.len(),
{
    let gs = category_groups(fs);
    let gc = group_clusters(fs, lowered);
    lemma_buckets_multiset(index_seq(fs.len()), category_rel(fs));
    lemma_buckets_well_formed(index_seq(fs.len()), category_rel(fs));
    lemma_group_clusters_multiset(gs, similarity_rel(lowered));
    let cs = consensus_clusters(fs, lowered);
    lemma_nonempty_pieces_len(cs);
    assert(cs.flatten().len() == fs.len()) by {
        assert(cs.flatten().to_multiset().len() == index_seq(fs.len()).to_multiset().len());
    }
}

/// Clustering each group, then concatenating, keeps the items of the
/// groups.
proof fn lemma_group_clusters_multiset(gs: Seq<Seq<usize>>, rel: spec_fn(usize, usize) -> bool)
    ensures
        bucket_each(gs, rel).flatten().flatten().to_multiset() == gs.flatten().to_multiset(),
        forall|k: int| 0 <= k < bucket_each(gs, rel).flatten().len()
            ==> (#[trigger] bucket_each(gs, rel).flatten()[k]).len() > 0,
    decreases gs.len(),
{
    let m = bucket_each(gs, rel);
    if gs.len() == 0 {
        assert(m.flatten() =~= Seq::<Seq<usize>>::empty());
        assert(m.flatten().flatten() =~= Seq::<usize>::empty());
    } else {
        let init = gs.drop_last();
        let g = gs.last();
        lemma_group_clusters_multiset(init, rel);
        let mi = bucket_each(init, rel);
        assert(m =~= mi.push(buckets(g, rel)));
        mi.lemma_flatten_push(buckets(g, rel));
        vstd::seq_lib::lemma_flatten_concat(mi.flatten(), buckets(g, rel));
        assert(gs =~= init.push(g));
        init.lemma_flatten_push(g);
        lemma_buckets_multiset(g, rel);
        lemma_buckets_well_formed(g, rel);
        vstd::seq_lib::lemma_multiset_commutative(mi.flatten().flatten(), buckets(g, rel).flatten());
        vstd::seq_lib::lemma_multiset_commutative(init.flatten(), g);
        assert forall|k: int| 0 <= k < m.flatten().len() implies (#[trigger] m.flatten()[k]).len() > 0 by {
            if k < mi.flatten().len() {
                assert(m.flatten()[k] == mi.flatten()[k]);
            } else {
                assert(m.flatten()[k] == buckets(g, rel)[k - mi.flatten().len()]);
            }
        }
    }
}

// ── Executable ──────────────────────────────────────────────────────

/// Whether two lower-cased descriptions are similar.
pub fn similar_lowered_exec(a: &[char], b: &[char]) -> (res: bool)
    ensures
        res == similar_lowered(a@, b@),
{
    if contains_chars(a, b) || contains_chars(b, a) {
        return true;
    }
    common_prefix_len_exec(a, b) >= 20
}

/// The findings' indices grouped by category.
fn group_by_category(fs: &[Finding]) -> (gs: Vec<Vec<usize>>)
    ensures
        nested(gs@) == category_groups(contents(fs@)),
        forall|k: int, j: int| 0 <= k < gs@.len() && 0 <= j < gs@[k]@.len() ==> gs@[k]@[j] < fs@.len(),
        forall|k: int| 0 <= k < gs@.len() ==> (#[trigger] gs@[k]@).len() > 0,
{
    let ghost cs = contents(fs@);
    let ghost rel = category_rel(cs);
    let ghost items = index_seq(fs@.len());
    let mut gs: Vec<Vec<usize>> = Vec::new();
    let mut i: usize = 0;
    while i < fs.len()
        invariant
            i <= fs.len(),
            cs == contents(fs@),
            rel == category_rel(cs),
            items == index_seq(fs@.len()),
            nested(gs@) == buckets(items.take(i as int), rel),
            forall|k: int, j: int| 0 <= k < gs@.len() && 0 <= j < gs@[k]@.len() ==> gs@[k]@[j] < i,
            forall|k: int| 0 <= k < gs@.len() ==> (#[trigger] gs@[k]@).len() > 0,
        decreases fs.len() - i,
    {
        let ghost prev = nested(gs@);
        let mut k: usize = 0;
        while k < gs.len() && fs[gs[k][0]].category != fs[i].category
            invariant
                i < fs.len(),
                k <= gs.len(),
                prev == nested(gs@),
                forall|k2: int, j: int| 0 <= k2 < gs@.len() && 0 <= j < gs@[k2]@.len() ==> gs@[k2]@[j] < i,
                forall|k2: int| 0 <= k2 < gs@.len() ==> (#[trigger] gs@[k2]@).len() > 0,
                forall|j: int| 0 <= j < k ==> !(#[trigger] rel(prev[j][0], i)),
                rel == category_rel(cs),
                cs == contents(fs@),
            decreases gs.len() - k,
        {
            k = k + 1;
        }
        assert(items.take(i + 1).drop_last() =~= items.take(i as int));
        assert(items.take(i + 1).last() == i);
        if k < gs.len() {
            assert(is_first_match(prev, i, rel, k as int));
            proof {
                lemma_first_bucket_is(prev, i, rel, k as int);
            }
            let mut b = gs.remove(k);
            b.push(i);
            gs.insert(k, b);
            assert(nested(gs@) =~= prev.update(k as int, prev[k as int].push(i)));
        } else {
            proof {
                lemma_first_bucket_none(prev, i, rel);
            }
            let mut b = Vec::new();
            b.push(i);
            gs.push(b);
            assert(nested(gs@) =~= prev.push(seq![i]));
        }
        i = i + 1;
    }
    assert(items.take(fs.len() as int) =~= items);
    gs
}

/// The clusters of one group: a finding joins the first cluster whose first
/// finding's lower-cased description is similar to its own.
fn cluster_group(lowered: &Vec<Vec<char>>, g: &Vec<usize>) -> (cl: Vec<Vec<usize>>)
    requires
        forall|j: int| 0 <= j < g@.len() ==> g@[j] < lowered@.len(),
    ensures
        nested(cl@) == buckets(g@, similarity_rel(char_views(lowered@))),
        forall|k: int, j: int| 0 <= k < cl@.len() && 0 <= j < cl@[k]@.len() ==> cl@[k]@[j] < lowered@.len(),
        forall|k: int| 0 <= k < cl@.len() ==> (#[trigger] cl@[k]@).len() > 0,
{
    let ghost lv = char_views(lowered@);
    let ghost rel = similarity_rel(lv);
    let mut cl: Vec<Vec<usize>> = Vec::new();
    let mut i: usize = 0;
    while i < g.len()
        invariant
            i <= g.len(),
            lv == char_views(lowered@),
            rel == similarity_rel(lv),
            forall|j: int| 0 <= j < g@.len() ==> g@[j] < lowered@.len(),
            nested(cl@) == buckets(g@.take(i as int), rel),
            forall|k: int, j: int| 0 <= k < cl@.len() && 0 <= j < cl@[k]@.len() ==> cl@[k]@[j] < lowered@.len(),
            forall|k: int| 0 <= k < cl@.len() ==> (#[trigger] cl@[k]@).len() > 0,
        decreases g.len() - i,
    {
        let x = g[i];
        let ghost prev = nested(cl@);
        let mut k: usize = 0;
        while k < cl.len() && !similar_lowered_exec(&lowered[cl[k][0]], &lowered[x])
            invariant
                i < g.len(),
                x == g@[i as int],
                x < lowered@.len(),
                k <= cl.len(),
                prev == nested(cl@),
                forall|k2: int, j: int| 0 <= k2 < cl@.len() && 0 <= j < cl@[k2]@.len() ==> cl@[k2]@[j] < lowered@.len(),
                forall|k2: int| 0 <= k2 < cl@.len() ==> (#[trigger] cl@[k2]@).len() > 0,
                forall|j: int| 0 <= j < k ==> !(#[trigger] rel(prev[j][0], x)),
                rel == similarity_rel(lv),
                lv == char_views(lowered@),
            decreases cl.len() - k,
        {
            k = k + 1;
        }
        assert(g@.take(i + 1).drop_last() =~= g@.take(i as int));
        assert(g@.take(i + 1).last() == x);
        if k < cl.len() {
            assert(is_first_match(prev, x, rel, k as int));
            proof {
                lemma_first_bucket_is(prev, x, rel, k as int);
            }
            let mut b = cl.remove(k);
            b.push(x);
            cl.insert(k, b);
            assert(nested(cl@) =~= prev.update(k as int, prev[k as int].push(x)));
        } else {
            proof {
                lemma_first_bucket_none(prev, x, rel);
            }
            let mut b = Vec::new();
            b.push(x);
            cl.push(b);
            assert(nested(cl@) =~= prev.push(seq![x]));
        }
        i = i + 1;
    }
    assert(g@.take(g.len() as int) =~= g@);
    cl
}

/// Whether `a` comes strictly before `b` in a report.
pub fn comes_before(a: &Finding, b: &Finding) -> (res: bool)
    ensures
        res == before(a.content(), b.content()),
{
    let ra = a.severity.level();
    let rb = b.severity.level();
    ra < rb || (ra == rb && a.confidence > b.confidence)
}

/// The finding that stands for a cluster of findings (by index).
fn merge_cluster(fs: &[Finding], c: &Vec<usize>) -> (f: Finding)
    requires
        c@.len() > 0,
        forall|j: int| 0 <= j < c@.len() ==> c@[j] < fs@.len(),
    ensures
        f.content() == merged_content(contents(fs@), c@),
        f.id@.len() == 36,
{
    let ghost cs = contents(fs@);
    let first = c[0];
    let mut best = fs[first].severity;
    let mut sum: u128 = 0;
    let mut evidence: Vec<Vec<char>> = Vec::new();
    let mut agents: Vec<Vec<char>> = Vec::new();
    let mut i: usize = 0;
    while i < c.len()
        invariant
            0 < c@.len(),
            i <= c@.len(),
            cs == contents(fs@),
            first == c@[0],
            forall|j: int| 0 <= j < c@.len() ==> c@[j] < fs@.len(),
            i == 0 ==> best == cs[first as int].severity,
            i > 0 ==> best == best_severity(cs, c@.take(i as int)),
            sum == confidence_sum(cs, c@.take(i as int)),
            sum <= i * 0xFFFF_FFFFu128,
            char_views(evidence@) == c@.take(i as int).map_values(|k: usize| cs[k as int].evidence),
            char_views(agents@) == c@.take(i as int).map_values(|k: usize| cs[k as int].agent_id),
        decreases c.len() - i,
    {
        let k = c[i];
        let ghost pre = c@.take(i as int);
        assert(c@.take(i + 1).drop_last() =~= pre);
        assert(c@.take(i + 1).last() == k);
        let sev = fs[k].severity;
        if i > 0 && sev.level() < best.level() {
            best = sev;
        }
        if i == 0 {
            assert(c@.take(1).len() == 1);
        }
        sum = sum + fs[k].confidence as u128;
        let e = chars_of(fs[k].evidence.as_str());
        let a = chars_of(fs[k].agent_id.as_str());
        let ghost ev_old = evidence@;
        let ghost ag_old = agents@;
        evidence.push(e);
        agents.push(a);
        assert(e@ == cs[k as int].evidence);
        assert(evidence@ == ev_old.push(e));
        assert(char_views(evidence@) =~= char_views(ev_old).push(e@));
        assert(char_views(agents@) =~= char_views(ag_old).push(a@));
        assert(c@.take(i + 1).map_values(|k: usize| cs[k as int].evidence) =~= pre.map_values(|k: usize| cs[k as int].evidence).push(cs[k as int].evidence));
        assert(c@.take(i + 1).map_values(|k: usize| cs[k as int].agent_id) =~= pre.map_values(|k: usize| cs[k as int].agent_id).push(cs[k as int].agent_id));
        assert(char_views(evidence@) =~= c@.take(i + 1).map_values(|k: usize| cs[k as int].evidence));
        assert(char_views(agents@) =~= c@.take(i + 1).map_values(|k: usize| cs[k as int].agent_id));
        i = i + 1;
    }
    assert(c@.take(c@.len() as int) =~= c@);
    let n = c.len() as u128;
    assert(sum / n <= 0xFFFF_FFFFu128) by (nonlinear_arith)
        requires
            sum <= n * 0xFFFF_FFFFu128,
            n > 0,
    ;
    let avg = (sum / n) as u32;
    let sep = chars_of(" | ");
    let plus = chars_of("+");
    let ev = join_chars(&evidence, &sep);
    let ag = join_chars(&agents, &plus);
    assert(char_views(evidence@) == evidence@.map_values(|p: Vec<char>| p@));
    assert(char_views(agents@) == agents@.map_values(|p: Vec<char>| p@));
    Finding::new(
        best,
        fs[first].category,
        fs[first].description.clone(),
        string_of(&ev),
        avg,
        string_of(&ag),
    )
}

/// The characters of each lower-cased string.
pub open spec fn lowered_views(lowered: Seq<String>) -> Seq<Seq<char>> {
    lowered.map_values(|s: String| s@)
}

/// The lower-cased descriptions of findings.
pub open spec fn lowered_descriptions(fs: Seq<Finding>) -> Seq<Seq<char>> {
    fs.map_values(|f: Finding| lowercase(f.description@))
}

/// The merging and passing-through engine.
pub struct ConsensusEngine;

impl ConsensusEngine {
    /// Whether two descriptions are similar: once lower-cased, one contains
    /// the other, or they share a prefix of at least 20 characters.
    pub fn similar(a: &str, b: &str) -> (res: bool)
        ensures
            res == similar_spec(a@, b@),
    {
        let al = to_lowercase(a);
        let bl = to_lowercase(b);
        let ac = chars_of(al.as_str());
        let bc = chars_of(bl.as_str());
        similar_lowered_exec(&ac, &bc)
    }

    /// Consensus over findings whose lower-cased descriptions are given, one
    /// per finding: group by category, merge each finding into the first
    /// cluster of its group whose first finding it is similar to, and sort
    /// the merged findings by severity, then by descending confidence.
    pub fn run_lowered(findings: &[Finding], lowered: &[String]) -> (r: ConsensusResult)
        requires
            lowered@.len() == findings@.len(),
        ensures
            contents(r.merged_findings@) == consensus_findings(contents(findings@), lowered_views(lowered@)),
            r.total_input_findings == findings@.len(),
            r.total_merged_findings == r.merged_findings@.len(),
            r.total_merged_findings == consensus_clusters(contents(findings@), lowered_views(lowered@)).len(),
            r.agreement_rate == agreement_rate(r.total_input_findings as nat, r.total_merged_findings as nat),
            r.id@.len() == 36,
            forall|i: int| 0 <= i < r.merged_findings@.len() ==> (#[trigger] r.merged_findings@[i]).id@.len() == 36,
    {
        let ghost cs = contents(findings@);
        let ghost lv = lowered_views(lowered@);
        let ghost rel = similarity_rel(lv);
        let n = findings.len();
        // Lower-cased descriptions as characters.
        let mut low: Vec<Vec<char>> = Vec::new();
        let mut i: usize = 0;
        while i < lowered.len()
            invariant
                i <= lowered@.len(),
                lv == lowered_views(lowered@),
                char_views(low@) == lv.take(i as int),
            decreases lowered.len() - i,
        {
            let v = chars_of(lowered[i].as_str());
            let ghost old_low = low@;
            low.push(v);
            assert(char_views(low@) =~= char_views(old_low).push(v@));
            assert(lv.take(i + 1) =~= lv.take(i as int).push(lv[i as int]));
            assert(char_views(low@) =~= lv.take(i + 1));
            i = i + 1;
        }
        assert(lv.take(lowered@.len() as int) =~= lv);
        // Groups, then the clusters of each group.
        let gs = group_by_category(findings);
        let ghost gsv = nested(gs@);
        let mut clusters: Vec<Vec<usize>> = Vec::new();
        let mut g: usize = 0;
        while g < gs.len()
            invariant
                g <= gs@.len(),
                n == findings@.len(),
                low@.len() == n,
                char_views(low@) == lv,
                rel == similarity_rel(lv),
                gsv == nested(gs@),
                gsv == category_groups(cs),
                cs == contents(findings@),
                forall|k: int, j: int| 0 <= k < gs@.len() && 0 <= j < gs@[k]@.len() ==> gs@[k]@[j] < n,
                nested(clusters@) == bucket_each(gsv.take(g as int), rel).flatten(),
                forall|k: int, j: int| 0 <= k < clusters@.len() && 0 <= j < clusters@[k]@.len() ==> clusters@[k]@[j] < n,
                forall|k: int| 0 <= k < clusters@.len() ==> (#[trigger] clusters@[k]@).len() > 0,
            decreases gs.len() - g,
        {
            let mut cl = cluster_group(&low, &gs[g]);
            let ghost before_append = nested(clusters@);
            let ghost clv = nested(cl@);
            clusters.append(&mut cl);
            assert(nested(clusters@) =~= before_append + clv);
            assert(gsv.take(g + 1) =~= gsv.take(g as int).push(gsv[g as int]));
            assert(bucket_each(gsv.take(g + 1), rel) =~= bucket_each(gsv.take(g as int), rel).push(buckets(gsv[g as int], rel)));
            proof {
                bucket_each(gsv.take(g as int), rel).lemma_flatten_push(buckets(gsv[g as int], rel));
            }
            g = g + 1;
        }
        assert(gsv.take(gs@.len() as int) =~= gsv);
        let ghost clusters_v = nested(clusters@);
        assert(clusters_v == consensus_clusters(cs, lv));
        // Merge each cluster and insert it in report order.
        let ghost ms = clusters_v.map_values(|c: Seq<usize>| merged_content(cs, c));
        let mut sorted: Vec<Finding> = Vec::new();
        let mut ci: usize = 0;
        while ci < clusters.len()
            invariant
                ci <= clusters@.len(),
                n == findings@.len(),
                cs == contents(findings@),
                clusters_v == nested(clusters@),
                ms == clusters_v.map_values(|c: Seq<usize>| merged_content(cs, c)),
                forall|k: int, j: int| 0 <= k < clusters@.len() && 0 <= j < clusters@[k]@.len() ==> clusters@[k]@[j] < n,
                forall|k: int| 0 <= k < clusters@.len() ==> (#[trigger] clusters@[k]@).len() > 0,
                contents(sorted@) == sort_by_priority(ms.take(ci as int)),
                sorted@.len() == ci,
                forall|k: int| 0 <= k < sorted@.len() ==> (#[trigger] sorted@[k]).id@.len() == 36,
            decreases clusters.len() - ci,
        {
            assert(clusters@[ci as int]@.len() > 0);
            let f = merge_cluster(findings, &clusters[ci]);
            let ghost r = contents(sorted@);
            let ghost x = f.content();
            assert(x == ms[ci as int]);
            assert(ms.take(ci + 1).drop_last() =~= ms.take(ci as int));
            assert(ms.take(ci + 1).last() == x);
            let mut p: usize = 0;
            while p < sorted.len() && !comes_before(&f, &sorted[p])
                invariant
                    p <= sorted@.len(),
                    r == contents(sorted@),
                    x == f.content(),
                    forall|j: int| 0 <= j < p ==> !before(x, #[trigger] r[j]),
                decreases sorted.len() - p,
            {
                p = p + 1;
            }
            proof {
                lemma_insert_point_is(r, x, p as int);
            }
            let ghost before_insert = sorted@;
            sorted.insert(p, f);
            assert(contents(sorted@) =~= r.insert(p as int, x));
            assert forall|k: int| 0 <= k < sorted@.len() implies (#[trigger] sorted@[k]).id@.len() == 36 by {
                if k < p {
                    assert(sorted@[k] == before_insert[k]);
                } else if k > p {
                    assert(sorted@[k] == before_insert[k - 1]);
                }
            }
            ci = ci + 1;
        }
        assert(ms.take(clusters@.len() as int) =~= ms);
        proof {
            lemma_clusters_partition(cs, lv);
        }
        let m = sorted.len();
        let rate: u32 = if n == 0 {
            0
        } else {
            let num = ((n - m) as u128) * 1000000u128;
            assert(num / (n as u128) <= 1000000u128) by (nonlinear_arith)
                requires
                    num == ((n - m) as u128) * 1000000u128,
                    m <= n,
                    n > 0,
            ;
            (num / (n as u128)) as u32
        };
        ConsensusResult {
            id: new_id(),
            merged_findings: sorted,
            agreement_rate: rate,
            total_input_findings: n,
            total_merged_findings: m,
            created_at: now_millis(),
        }
    }

    /// Consensus over a set of findings: group by category, merge similar
    /// descriptions within a group, pass unique findings through, and sort
    /// by severity, then by descending confidence.
    pub fn run(findings: &[Finding]) -> (r: ConsensusResult)
        ensures
            contents(r.merged_findings@) == consensus_findings(contents(findings@), lowered_descriptions(findings@)),
            r.total_input_findings == findings@.len(),
            r.total_merged_findings == r.merged_findings@.len(),
            r.total_merged_findings == consensus_clusters(contents(findings@), lowered_descriptions(findings@)).len(),
            r.agreement_rate == agreement_rate(r.total_input_findings as nat, r.total_merged_findings as nat),
            r.id@.len() == 36,
            forall|i: int| 0 <= i < r.merged_findings@.len() ==> (#[trigger] r.merged_findings@[i]).id@.len() == 36,
    {
        let mut lowered: Vec<String> = Vec::new();
        let mut i: usize = 0;
        while i < findings.len()
            invariant
                i <= findings@.len(),
                lowered_views(lowered@) == lowered_descriptions(findings@).take(i as int),
            decreases findings.len() - i,
        {
            let l = to_lowercase(findings[i].description.as_str());
            let ghost old_l = lowered@;
            lowered.push(l);
            assert(lowered_views(lowered@) =~= lowered_views(old_l).push(l@));
            assert(lowered_descriptions(findings@).take(i + 1) =~= lowered_descriptions(findings@).take(i as int).push(lowered_descriptions(findings@)[i as int]));
            assert(lowered_views(lowered@) =~= lowered_descriptions(findings@).take(i + 1));
            i = i + 1;
        }
        assert(lowered_descriptions(findings@).take(findings@.len() as int) =~= lowered_descriptions(findings@));
        Self::run_lowered(findings, &lowered)
    }
}

// ── Laws ────────────────────────────────────────────────────────────

/// The agreement rate is a fraction between 0 and 1: it is 0 when nothing
/// was merged, positive when something was merged among at most a million
/// inputs, and below 1 while one finding remains.
pub proof fn law_agreement_rate_bounds(n: nat, m: nat)
    requires
        m <= n,
    ensures
        agreement_rate(n, m) <= CONFIDENCE_SCALE,
        m == n ==> agreement_rate(n, m) == 0,
        m < n && n <= CONFIDENCE_SCALE ==> agreement_rate(n, m) > 0,
        m >= 1 ==> agreement_rate(n, m) < CONFIDENCE_SCALE,
        n > 0 ==> agreement_rate(n, m) * n <= (n - m) * 1000000 < (agreement_rate(n, m) + 1) * n,
{
    if n > 0 {
        let d = n - m;
        let q = d * 1000000 / (n as int);
        assert(q * n <= d * 1000000 < (q + 1) * n) by (nonlinear_arith)
            requires
                0 <= d,
                n > 0,
                q == d * 1000000 / (n as int),
        ;
        assert(d < n ==> d * 1000000 / (n as int) < 1000000) by (nonlinear_arith)
            requires
                0 <= d,
                n > 0,
        ;
        assert(d * 1000000 / (n as int) <= 1000000) by (nonlinear_arith)
            requires
                0 <= d <= n,
                n > 0,
        ;
        assert(d >= 1 && n <= 1000000 ==> d * 1000000 / (n as int) >= 1) by (nonlinear_arith)
            requires
                n > 0,
        ;
    }
}

/// A cluster's severity is the highest among its findings: no member is more
/// severe, and some member has it.
pub proof fn law_merged_severity_is_highest(fs: Seq<FindingContent>, c: Seq<usize>)
    requires
        c.len() > 0,
        forall|j: int| 0 <= j < c.len() ==> c[j] < fs.len(),
    ensures
        forall|j: int| 0 <= j < c.len() ==> best_severity(fs, c).rank() <= (#[trigger] fs[c[j] as int]).severity.rank(),
        exists|j: int| 0 <= j < c.len() && best_severity(fs, c) == (#[trigger] fs[c[j] as int]).severity,
    decreases c.len(),
{
    if c.len() == 1 {
        assert(best_severity(fs, c) == fs[c[0] as int].severity);
    } else {
        let init = c.drop_last();
        law_merged_severity_is_highest(fs, init);
        assert forall|j: int| 0 <= j < c.len() implies best_severity(fs, c).rank() <= (#[trigger] fs[c[j] as int]).severity.rank() by {
            if j < c.len() - 1 {
                assert(c[j] == init[j]);
            }
        }
        let w = choose|j: int| 0 <= j < init.len() && best_severity(fs, init) == (#[trigger] fs[init[j] as int]).severity;
        if best_severity(fs, c) == best_severity(fs, init) {
            assert(c[w] == init[w]);
        } else {
            assert(best_severity(fs, c) == fs[c[c.len() - 1] as int].severity);
        }
    }
}

/// The sum of a cluster's confidences lies between its size times the
/// least and its size times the greatest.
proof fn lemma_confidence_sum_bounds(fs: Seq<FindingContent>, c: Seq<usize>, lo: nat, hi: nat)
    requires
        forall|j: int| 0 <= j < c.len() ==> c[j] < fs.len(),
        forall|j: int| 0 <= j < c.len() ==> lo <= (#[trigger] fs[c[j] as int]).confidence <= hi,
    ensures
        c.len() * lo <= confidence_sum(fs, c) <= c.len() * hi,
    decreases c.len(),
{
    if c.len() > 0 {
        let init = c.drop_last();
        assert forall|j: int| 0 <= j < init.len() implies lo <= (#[trigger] fs[init[j] as int]).confidence <= hi by {
            assert(init[j] == c[j]);
        }
        lemma_confidence_sum_bounds(fs, init, lo, hi);
        assert(lo <= fs[c[c.len() - 1] as int].confidence <= hi);
        assert(c.len() * lo == init.len() * lo + lo) by (nonlinear_arith)
            requires
                c.len() == init.len() + 1,
        ;
        assert(c.len() * hi == init.len() * hi + hi) by (nonlinear_arith)
            requires
                c.len() == init.len() + 1,
        ;
    } else {
        assert(c.len() * lo == 0 && c.len() * hi == 0) by (nonlinear_arith)
            requires
                c.len() == 0,
        ;
    }
}

/// A merged confidence is the mean of its cluster's: it lies between the
/// least and the greatest of them.
pub proof fn law_merged_confidence_is_mean(fs: Seq<FindingContent>, c: Seq<usize>, lo: nat, hi: nat)
    requires
        c.len() > 0,
        hi <= CONFIDENCE_SCALE,
        forall|j: int| 0 <= j < c.len() ==> c[j] < fs.len(),
        forall|j: int| 0 <= j < c.len() ==> lo <= (#[trigger] fs[c[j] as int]).confidence <= hi,
    ensures
        lo <= merged_content(fs, c).confidence <= hi,
        merged_content(fs, c).confidence == confidence_sum(fs, c) / c.len(),
{
    lemma_confidence_sum_bounds(fs, c, lo, hi);
    let s = confidence_sum(fs, c);
    let n = c.len();
    assert(lo <= s / n <= hi) by (nonlinear_arith)
        requires
            n * lo <= s <= n * hi,
            n > 0,
    ;
}

/// A cluster of one finding stands for that finding unchanged.
pub proof fn law_single_finding_passes_through(fs: Seq<FindingContent>, i: usize)
    requires
        i < fs.len(),
        fs[i as int].confidence <= CONFIDENCE_SCALE,
    ensures
        merged_content(fs, seq![i]) == fs[i as int],
{
    let c = seq![i];
    assert(c.map_values(|k: usize| fs[k as int].evidence) =~= seq![fs[i as int].evidence]);
    assert(c.map_values(|k: usize| fs[k as int].agent_id) =~= seq![fs[i as int].agent_id]);
    assert(c.drop_last() =~= Seq::<usize>::empty());
    assert(confidence_sum(fs, c.drop_last()) == 0);
    assert(c.last() == i);
    assert(confidence_sum(fs, c) == fs[i as int].confidence);
}

/// Every finding of a bucket was an item of the bucketed sequence.
proof fn lemma_bucket_items_in_source<A>(s: Seq<A>, rel: spec_fn(A, A) -> bool, k: int, j: int)
    requires
        0 <= k < buckets(s, rel).len(),
        0 <= j < buckets(s, rel)[k].len(),
    ensures
        s.contains(buckets(s, rel)[k][j]),
{
    let bs = buckets(s, rel);
    crate::buckets::lemma_flatten_update_multiset(bs, k, bs[k]);
    lemma_buckets_multiset(s, rel);
    assert(bs[k].to_multiset().count(bs[k][j]) > 0);
    assert(s.to_multiset().count(bs[k][j]) > 0);
}

/// The findings of each group share the category of its first.
proof fn lemma_groups_share_category(fs: Seq<FindingContent>)
    ensures
        forall|g: int, j: int| 0 <= g < category_groups(fs).len() && 0 <= j < category_groups(fs)[g].len()
            ==> fs[(#[trigger] category_groups(fs)[g][j]) as int].category == fs[category_groups(fs)[g][0] as int].category,
{
    lemma_buckets_well_formed(index_seq(fs.len()), category_rel(fs));
    let gs = category_groups(fs);
    assert forall|g: int, j: int| 0 <= g < gs.len() && 0 <= j < gs[g].len()
        implies fs[(#[trigger] gs[g][j]) as int].category == fs[gs[g][0] as int].category by {
        if j >= 1 {
            assert(category_rel(fs)(gs[g][0], gs[g][j]));
        }
    }
}

/// Clusters taken from groups whose members share a category also share a
/// category, and each member is related to the cluster's first.
proof fn lemma_clusters_homogeneous(
    fs: Seq<FindingContent>,
    gs: Seq<Seq<usize>>,
    rel: spec_fn(usize, usize) -> bool,
)
    requires
        forall|g: int, j: int| 0 <= g < gs.len() && 0 <= j < gs[g].len()
            ==> fs[(#[trigger] gs[g][j]) as int].category == fs[gs[g][0] as int].category,
    ensures
        forall|k: int| 0 <= k < bucket_each(gs, rel).flatten().len() ==> {
            let c = #[trigger] bucket_each(gs, rel).flatten()[k];
            &&& c.len() > 0
            &&& forall|j: int| 0 <= j < c.len() ==> fs[(#[trigger] c[j]) as int].category == fs[c[0] as int].category
            &&& forall|j: int| 1 <= j < c.len() ==> rel(c[0], #[trigger] c[j])
        },
    decreases gs.len(),
{
    if gs.len() > 0 {
        let init = gs.drop_last();
        let g = gs.last();
        assert forall|a: int, j: int| 0 <= a < init.len() && 0 <= j < init[a].len()
            implies fs[(#[trigger] init[a][j]) as int].category == fs[init[a][0] as int].category by {
            assert(init[a] == gs[a]);
        }
        lemma_clusters_homogeneous(fs, init, rel);
        let mi = bucket_each(init, rel);
        let bg = buckets(g, rel);
        assert(bucket_each(gs, rel) =~= mi.push(bg));
        mi.lemma_flatten_push(bg);
        lemma_buckets_well_formed(g, rel);
        let all = bucket_each(gs, rel).flatten();
        assert forall|k: int| 0 <= k < all.len() implies {
            let c = #[trigger] all[k];
            &&& c.len() > 0
            &&& forall|j: int| 0 <= j < c.len() ==> fs[(#[trigger] c[j]) as int].category == fs[c[0] as int].category
            &&& forall|j: int| 1 <= j < c.len() ==> rel(c[0], #[trigger] c[j])
        } by {
            if k < mi.flatten().len() {
                assert(all[k] == mi.flatten()[k]);
            } else {
                let b = k - mi.flatten().len();
                assert(all[k] == bg[b]);
                let c = bg[b];
                assert forall|j: int| 0 <= j < c.len() implies fs[(#[trigger] c[j]) as int].category == fs[c[0] as int].category by {
                    lemma_bucket_items_in_source(g, rel, b, j);
                    lemma_bucket_items_in_source(g, rel, b, 0);
                    let p = choose|p: int| 0 <= p < g.len() && g[p] == c[j];
                    let q = choose|q: int| 0 <= q < g.len() && g[q] == c[0];
                    assert(g == gs[gs.len() - 1]);
                    assert(fs[g[p] as int].category == fs[g[0] as int].category);
                    assert(fs[g[q] as int].category == fs[g[0] as int].category);
                }
            }
        }
    }
}

/// Consensus merges only within a category, and only findings similar to
/// the cluster's first.
pub proof fn law_clusters_share_category_and_are_similar(fs: Seq<FindingContent>, lowered: Seq<Seq<char>>)
    ensures
        forall|k: int| 0 <= k < consensus_clusters(fs, lowered).len() ==> {
            let c = #[trigger] consensus_clusters(fs, lowered)[k];
            &&& c.len() > 0
            &&& forall|j: int| 0 <= j < c.len() ==> fs[(#[trigger] c[j]) as int].category == fs[c[0] as int].category
            &&& forall|j: int| 1 <= j < c.len() ==> similar_lowered(lowered[c[0] as int], lowered[(#[trigger] c[j]) as int])
        },
{
    lemma_groups_share_category(fs);
    lemma_clusters_homogeneous(fs, category_groups(fs), similarity_rel(lowered));
}

/// The common prefix of two texts does not depend on their order.
proof fn lemma_common_prefix_symmetric(a: Seq<char>, b: Seq<char>)
    ensures
        common_prefix_len(a, b) == common_prefix_len(b, a),
    decreases a.len(),
{
    if a.len() > 0 && b.len() > 0 && a[0] == b[0] {
        lemma_common_prefix_symmetric(a.drop_first(), b.drop_first());
    }
}

/// Similarity is symmetric, and every description is similar to itself.
pub proof fn law_similarity_symmetric_and_reflexive(a: Seq<char>, b: Seq<char>)
    ensures
        similar_spec(a, b) == similar_spec(b, a),
        similar_spec(a, a),
{
    lemma_common_prefix_symmetric(lowercase(a), lowercase(b));
    let la = lowercase(a);
    assert(crate::text::occurs_at(la, la, 0)) by {
        assert(la.subrange(0, la.len() as int) =~= la);
    }
}

/// The merged finding of a cluster: the cluster's first category and
/// description, its highest severity, the mean of its confidences, every
/// evidence joined by `" | "` and every agent joined by `"+"`, in cluster
/// order.
pub proof fn law_merged_finding_parts(fs: Seq<FindingContent>, c: Seq<usize>)
    requires
        c.len() > 0,
        forall|j: int| 0 <= j < c.len() ==> c[j] < fs.len(),
        forall|j: int| 0 <= j < c.len() ==> (#[trigger] fs[c[j] as int]).confidence <= CONFIDENCE_SCALE,
    ensures
        merged_content(fs, c).category == fs[c[0] as int].category,
        merged_content(fs, c).description == fs[c[0] as int].description,
        merged_content(fs, c).severity == best_severity(fs, c),
        forall|j: int| 0 <= j < c.len() ==> merged_content(fs, c).severity.rank() <= (#[trigger] fs[c[j] as int]).severity.rank(),
        merged_content(fs, c).confidence == confidence_sum(fs, c) / c.len(),
        merged_content(fs, c).confidence <= CONFIDENCE_SCALE,
        merged_content(fs, c).evidence == join(c.map_values(|i: usize| fs[i as int].evidence), " | "@),
        merged_content(fs, c).agent_id == join(c.map_values(|i: usize| fs[i as int].agent_id), "+"@),
{
    law_merged_severity_is_highest(fs, c);
    law_merged_confidence_is_mean(fs, c, 0, CONFIDENCE_SCALE as nat);
}

/// Every merged finding has a confidence of at most 1.0; a run over some
/// findings keeps at least one, so its agreement rate stays below 1.0.
pub proof fn law_consensus_bounds(fs: Seq<FindingContent>, lowered: Seq<Seq<char>>)
    ensures
        forall|i: int| 0 <= i < consensus_findings(fs, lowered).len()
            ==> (#[trigger] consensus_findings(fs, lowered)[i]).confidence <= CONFIDENCE_SCALE,
        fs.len() > 0 ==> consensus_findings(fs, lowered).len() >= 1,
        fs.len() > 0 ==> agreement_rate(fs.len(), consensus_findings(fs, lowered).len()) < CONFIDENCE_SCALE,
{
    let cs = consensus_clusters(fs, lowered);
    let ms = cs.map_values(|c: Seq<usize>| merged_content(fs, c));
    law_consensus_report(fs, lowered);
    lemma_clusters_partition(fs, lowered);
    let out = consensus_findings(fs, lowered);
    assert forall|i: int| 0 <= i < out.len() implies (#[trigger] out[i]).confidence <= CONFIDENCE_SCALE by {
        assert(out.to_multiset().count(out[i]) > 0);
        assert(ms.to_multiset().count(out[i]) > 0);
        assert(ms.contains(out[i]));
        let k = choose|k: int| 0 <= k < ms.len() && ms[k] == out[i];
        assert(ms[k] == merged_content(fs, cs[k]));
    }
    if fs.len() > 0 {
        if cs.len() == 0 {
            assert(cs.flatten() =~= Seq::<usize>::empty());
            assert(index_seq(fs.len()).to_multiset().count(0) > 0) by {
                assert(index_seq(fs.len())[0] == 0);
                assert(index_seq(fs.len()).contains(0));
            }
        }
        law_agreement_rate_bounds(fs.len(), out.len());
    }
}

/// Sequences with the same items keep the same items under a map.
proof fn lemma_map_multiset<A, B>(s1: Seq<A>, s2: Seq<A>, f: spec_fn(A) -> B)
    requires
        s1.to_multiset() == s2.to_multiset(),
    ensures
        s1.map_values(f).to_multiset() == s2.map_values(f).to_multiset(),
    decreases s1.len(),
{
    if s1.len() == 0 {
        assert(s1.to_multiset().len() == 0);
        assert(s2.to_multiset().len() == s2.len());
        assert(s2.len() == 0);
        assert(s1.map_values(f) =~= Seq::<B>::empty());
        assert(s2.map_values(f) =~= Seq::<B>::empty());
    } else {
        let a = s1.last();
        let init = s1.drop_last();
        assert(s1 =~= init.push(a));
        assert(s1.to_multiset().count(a) > 0);
        assert(s2.contains(a));
        let j = choose|j: int| 0 <= j < s2.len() && s2[j] == a;
        let rest = s2.remove(j);
        assert(rest.to_multiset() == s2.to_multiset().remove(a));
        assert(init.to_multiset() =~= s1.to_multiset().remove(a)) by {
            assert(s1.to_multiset() =~= init.to_multiset().insert(a));
        }
        lemma_map_multiset(init, rest, f);
        assert(s1.map_values(f) =~= init.map_values(f).push(f(a)));
        assert(s2 =~= rest.insert(j, a));
        assert(s2.map_values(f) =~= rest.map_values(f).insert(j, f(a)));
        vstd::seq_lib::to_multiset_insert(rest.map_values(f), j, f(a));
    }
}

/// Pieces of one item each flatten to their items.
proof fn lemma_flatten_singletons<A>(bs: Seq<Seq<A>>)
    requires
        forall|k: int| 0 <= k < bs.len() ==> (#[trigger] bs[k]).len() == 1,
    ensures
        bs.flatten() == bs.map_values(|b: Seq<A>| b[0]),
    decreases bs.len(),
{
    if bs.len() > 0 {
        let init = bs.drop_last();
        let b = bs.last();
        assert forall|k: int| 0 <= k < init.len() implies (#[trigger] init[k]).len() == 1 by {
            assert(init[k] == bs[k]);
        }
        lemma_flatten_singletons(init);
        assert(bs =~= init.push(b));
        init.lemma_flatten_push(b);
        assert(b =~= seq![b[0]]);
        assert(bs.map_values(|b: Seq<A>| b[0]) =~= init.map_values(|b: Seq<A>| b[0]).push(b[0]));
    } else {
        assert(bs.flatten() =~= Seq::<A>::empty());
        assert(bs.map_values(|b: Seq<A>| b[0]) =~= Seq::<A>::empty());
    }
}

/// Findings of which no two in a category are similar all pass through:
/// as many findings come out as went in, the same findings, and nothing
/// counts as agreement.
pub proof fn law_dissimilar_findings_pass_through(fs: Seq<FindingContent>, lowered: Seq<Seq<char>>)
    requires
        forall|i: int, j: int| 0 <= i < fs.len() && 0 <= j < fs.len() && i != j
            && (#[trigger] fs[i]).category == (#[trigger] fs[j]).category
            ==> !similar_lowered(lowered[i], lowered[j]),
        forall|i: int| 0 <= i < fs.len() ==> (#[trigger] fs[i]).confidence <= CONFIDENCE_SCALE,
        fs.len() <= usize::MAX,
    ensures
        consensus_findings(fs, lowered).len() == fs.len(),
        agreement_rate(fs.len(), consensus_findings(fs, lowered).len()) == 0,
        consensus_findings(fs, lowered).to_multiset() == fs.to_multiset(),
{
    let n = fs.len();
    let cs = consensus_clusters(fs, lowered);
    let idx = index_seq(n);
    lemma_clusters_partition(fs, lowered);
    law_clusters_share_category_and_are_similar(fs, lowered);
    law_consensus_report(fs, lowered);
    assert forall|i: int| 0 <= i < n implies (#[trigger] idx[i]) as int == i by {}
    assert(idx.no_duplicates());
    idx.lemma_multiset_has_no_duplicates();
    let mf = cs.flatten().to_multiset();
    assert forall|k: int| 0 <= k < cs.len() implies (#[trigger] cs[k]).len() == 1 by {
        let cl = cs[k];
        crate::buckets::lemma_flatten_update_multiset(cs, k, cl);
        assert(cl.len() > 0);
        if cl.len() >= 2 {
            assert forall|x: usize| cl.to_multiset().contains(x) implies cl.to_multiset().count(x) == 1 by {
                assert(cl.to_multiset().count(x) <= mf.count(x));
                assert(idx.to_multiset().contains(x));
            }
            cl.lemma_multiset_has_no_duplicates_conv();
            assert(cl[0] != cl[1]);
            assert(cl.contains(cl[0]));
            assert(cl.contains(cl[1]));
            assert(cl.to_multiset().count(cl[0]) <= mf.count(cl[0]));
            assert(cl.to_multiset().count(cl[1]) <= mf.count(cl[1]));
            assert(idx.contains(cl[0]));
            assert(idx.contains(cl[1]));
            let p = choose|p: int| 0 <= p < idx.len() && idx[p] == cl[0];
            let q = choose|q: int| 0 <= q < idx.len() && idx[q] == cl[1];
            assert(fs[cl[1] as int].category == fs[cl[0] as int].category);
            assert(similar_lowered(lowered[cl[0] as int], lowered[cl[1] as int]));
            assert(fs[p].category == fs[q].category);
            assert(false);
        }
    }
    lemma_flatten_singletons(cs);
    let firsts = cs.map_values(|b: Seq<usize>| b[0]);
    assert(cs.len() == n) by {
        assert(firsts.len() == cs.flatten().len());
        assert(cs.flatten().len() == cs.flatten().to_multiset().len());
    }
    let ms = cs.map_values(|c: Seq<usize>| merged_content(fs, c));
    let pick = |i: usize| fs[i as int];
    assert forall|k: int| 0 <= k < cs.len() implies ms[k] == firsts.map_values(pick)[k] by {
        let cl = cs[k];
        assert(cl.len() == 1);
        assert(cl =~= seq![cl[0]]);
        assert(cs.flatten().to_multiset().count(cl[0]) > 0) by {
            crate::buckets::lemma_flatten_update_multiset(cs, k, cl);
            assert(cl.to_multiset().count(cl[0]) > 0);
        }
        assert(idx.contains(cl[0]));
        law_single_finding_passes_through(fs, cl[0]);
    }
    assert(ms =~= firsts.map_values(pick));
    lemma_map_multiset(firsts, idx, pick);
    assert forall|i: int| 0 <= i < n implies #[trigger] idx.map_values(pick)[i] == fs[i] by {
        assert(idx[i] as int == i);
    }
    assert(idx.map_values(pick) =~= fs);
    law_agreement_rate_bounds(n, n);
}

/// How many of the findings have category `c`.
pub open spec fn category_count(s: Seq<FindingContent>, c: FindingCategory) -> nat {
    s.map_values(|f: FindingContent| f.category).to_multiset().count(c)
}

/// A sequence of one repeated item counts it once per place, and nothing
/// else.
proof fn lemma_constant_count<A>(s: Seq<A>, x: A, y: A)
    requires
        forall|i: int| 0 <= i < s.len() ==> s[i] == x,
    ensures
        s.to_multiset().count(y) == if y == x { s.len() } else { 0 },
    decreases s.len(),
{
    if s.len() == 0 {
        assert(s.to_multiset() =~= vstd::multiset::Multiset::<A>::empty());
    } else {
        let init = s.drop_last();
        lemma_constant_count(init, x, y);
        assert(s =~= init.push(s.last()));
    }
}

/// Over clusters each of whose members share the first member's category,
/// the clusters of a category are at most its members, and there are
/// clusters of a category exactly when there are members of it.
proof fn lemma_cluster_category_counts(fs: Seq<FindingContent>, bs: Seq<Seq<usize>>, c: FindingCategory)
    requires
        forall|k: int| 0 <= k < bs.len() ==> (#[trigger] bs[k]).len() > 0,
        forall|k: int, j: int| 0 <= k < bs.len() && 0 <= j < bs[k].len()
            ==> fs[(#[trigger] bs[k][j]) as int].category == fs[bs[k][0] as int].category,
    ensures
        bs.map_values(|b: Seq<usize>| fs[b[0] as int].category).to_multiset().count(c)
            <= bs.flatten().map_values(|i: usize| fs[i as int].category).to_multiset().count(c),
        (bs.map_values(|b: Seq<usize>| fs[b[0] as int].category).to_multiset().count(c) == 0)
            == (bs.flatten().map_values(|i: usize| fs[i as int].category).to_multiset().count(c) == 0),
    decreases bs.len(),
{
    let firstcat = |b: Seq<usize>| fs[b[0] as int].category;
    let icat = |i: usize| fs[i as int].category;
    if bs.len() == 0 {
        assert(bs.map_values(firstcat) =~= Seq::<FindingCategory>::empty());
        assert(bs.flatten() =~= Seq::<usize>::empty());
        assert(bs.flatten().map_values(icat) =~= Seq::<FindingCategory>::empty());
    } else {
        let init = bs.drop_last();
        let b = bs.last();
        assert forall|k: int, j: int| 0 <= k < init.len() && 0 <= j < init[k].len()
            implies fs[(#[trigger] init[k][j]) as int].category == fs[init[k][0] as int].category by {
            assert(init[k] == bs[k]);
        }
        assert forall|k: int| 0 <= k < init.len() implies (#[trigger] init[k]).len() > 0 by {
            assert(init[k] == bs[k]);
        }
        lemma_cluster_category_counts(fs, init, c);
        assert(bs =~= init.push(b));
        init.lemma_flatten_push(b);
        let x = fs[b[0] as int].category;
        assert(bs.map_values(firstcat) =~= init.map_values(firstcat).push(x));
        assert(bs.flatten().map_values(icat) =~= init.flatten().map_values(icat) + b.map_values(icat));
        vstd::seq_lib::lemma_multiset_commutative(init.flatten().map_values(icat), b.map_values(icat));
        assert forall|i: int| 0 <= i < b.map_values(icat).len() implies b.map_values(icat)[i] == x by {
            assert(fs[bs[bs.len() - 1][i] as int].category == fs[bs[bs.len() - 1][0] as int].category);
        }
        lemma_constant_count(b.map_values(icat), x, c);
    }
}

/// Consensus neither invents nor loses a category: a category without input
/// findings has no merged finding, and one with input findings has at
/// least one and at most as many merged findings as inputs.
pub proof fn law_categories_kept(fs: Seq<FindingContent>, lowered: Seq<Seq<char>>, c: FindingCategory)
    requires
        fs.len() <= usize::MAX,
    ensures
        category_count(fs, c) == 0 ==> category_count(consensus_findings(fs, lowered), c) == 0,
        category_count(fs, c) > 0 ==> 1 <= category_count(consensus_findings(fs, lowered), c) <= category_count(fs, c),
{
    let n = fs.len();
    let cs = consensus_clusters(fs, lowered);
    let idx = index_seq(n);
    let out = consensus_findings(fs, lowered);
    let ms = cs.map_values(|cl: Seq<usize>| merged_content(fs, cl));
    let cat = |f: FindingContent| f.category;
    let firstcat = |b: Seq<usize>| fs[b[0] as int].category;
    let icat = |i: usize| fs[i as int].category;
    lemma_clusters_partition(fs, lowered);
    law_clusters_share_category_and_are_similar(fs, lowered);
    law_consensus_report(fs, lowered);
    assert forall|k: int, j: int| 0 <= k < cs.len() && 0 <= j < cs[k].len()
        implies fs[(#[trigger] cs[k][j]) as int].category == fs[cs[k][0] as int].category by {
        let cl = cs[k];
        assert(fs[cl[j] as int].category == fs[cl[0] as int].category);
    }
    lemma_cluster_category_counts(fs, cs, c);
    // Inputs: the categories of the indices are those of the findings.
    assert forall|i: int| 0 <= i < n implies #[trigger] idx.map_values(icat)[i] == fs.map_values(cat)[i] by {
        assert(idx[i] as int == i);
    }
    assert(idx.map_values(icat) =~= fs.map_values(cat));
    lemma_map_multiset(cs.flatten(), idx, icat);
    // Outputs: the merged findings carry their clusters' first categories.
    lemma_map_multiset(out, ms, cat);
    assert(ms.map_values(cat) =~= cs.map_values(firstcat));
}

/// Each finding of a consensus report is the merged finding of one of the
/// clusters: a non-empty cluster of input findings (by index), so that
/// `law_merged_finding_parts` says what it is made of.
pub proof fn law_report_findings_are_merged_clusters(fs: Seq<FindingContent>, lowered: Seq<Seq<char>>)
    requires
        fs.len() <= usize::MAX,
    ensures
        forall|i: int| 0 <= i < consensus_findings(fs, lowered).len() ==> exists|k: int|
            0 <= k < consensus_clusters(fs, lowered).len()
                && #[trigger] consensus_findings(fs, lowered)[i] == merged_content(fs, consensus_clusters(fs, lowered)[k]),
        forall|k: int, j: int| 0 <= k < consensus_clusters(fs, lowered).len() && 0 <= j < consensus_clusters(fs, lowered)[k].len()
            ==> (#[trigger] consensus_clusters(fs, lowered)[k][j]) < fs.len(),
        forall|k: int| 0 <= k < consensus_clusters(fs, lowered).len() ==> (#[trigger] consensus_clusters(fs, lowered)[k]).len() > 0,
{
    let cs = consensus_clusters(fs, lowered);
    let ms = cs.map_values(|c: Seq<usize>| merged_content(fs, c));
    let out = consensus_findings(fs, lowered);
    let idx = index_seq(fs.len());
    law_consensus_report(fs, lowered);
    lemma_clusters_partition(fs, lowered);
    assert forall|i: int| 0 <= i < out.len() implies exists|k: int|
        0 <= k < cs.len() && #[trigger] out[i] == merged_content(fs, cs[k]) by {
        assert(out.to_multiset().count(out[i]) > 0);
        assert(ms.to_multiset().count(out[i]) > 0);
        assert(ms.contains(out[i]));
        let k = choose|k: int| 0 <= k < ms.len() && ms[k] == out[i];
        assert(ms[k] == merged_content(fs, cs[k]));
    }
    assert forall|k: int, j: int| 0 <= k < cs.len() && 0 <= j < cs[k].len() implies (#[trigger] cs[k][j]) < fs.len() by {
        crate::buckets::lemma_flatten_update_multiset(cs, k, cs[k]);
        assert(cs[k].to_multiset().count(cs[k][j]) > 0);
        assert(cs.flatten().to_multiset().count(cs[k][j]) > 0);
        assert(idx.contains(cs[k][j]));
        let p = choose|p: int| 0 <= p < idx.len() && idx[p] == cs[k][j];
        assert(idx[p] as int == p);
    }
}

/// A more serious finding comes strictly before a less serious one in a
/// report, in the declared order Critical, High, Medium, Low, Info, whatever
/// their confidences.
pub proof fn law_more_serious_first(a: FindingContent, b: FindingContent)
    ensures
        a.severity == Severity::Critical && b.severity != Severity::Critical ==> before(a, b),
        a.severity == Severity::High && (b.severity == Severity::Medium || b.severity == Severity::Low
            || b.severity == Severity::Info) ==> before(a, b),
        a.severity == Severity::Medium && (b.severity == Severity::Low || b.severity == Severity::Info) ==> before(a, b),
        a.severity == Severity::Low && b.severity == Severity::Info ==> before(a, b),
        a.severity == b.severity && a.confidence > b.confidence ==> before(a, b),
        a.severity == b.severity && a.confidence <= b.confidence ==> !before(a, b),
{
}

/// Some finding of cluster `c` has severity `s`.
pub open spec fn severity_in(fs: Seq<FindingContent>, c: Seq<usize>, s: Severity) -> bool {
    exists|j: int| 0 <= j < c.len() && (#[trigger] fs[c[j] as int]).severity == s
}

/// A cluster takes the most serious severity among its findings, in the
/// declared order Critical, High, Medium, Low, Info.
pub proof fn law_cluster_severity_declared_order(fs: Seq<FindingContent>, c: Seq<usize>)
    requires
        c.len() > 0,
        forall|j: int| 0 <= j < c.len() ==> c[j] < fs.len(),
    ensures
        ({
            let best = merged_content(fs, c).severity;
            &&& severity_in(fs, c, Severity::Critical) ==> best == Severity::Critical
            &&& !severity_in(fs, c, Severity::Critical) && severity_in(fs, c, Severity::High) ==> best == Severity::High
            &&& !severity_in(fs, c, Severity::Critical) && !severity_in(fs, c, Severity::High) && severity_in(fs, c, Severity::Medium) ==> best == Severity::Medium
            &&& !severity_in(fs, c, Severity::Critical) && !severity_in(fs, c, Severity::High) && !severity_in(fs, c, Severity::Medium) && severity_in(fs, c, Severity::Low)
                ==> best == Severity::Low
            &&& !severity_in(fs, c, Severity::Critical) && !severity_in(fs, c, Severity::High) && !severity_in(fs, c, Severity::Medium) && !severity_in(fs, c, Severity::Low)
                ==> best == Severity::Info
        }),
{
    law_merged_severity_is_highest(fs, c);
    let best = best_severity(fs, c);
    let w = choose|j: int| 0 <= j < c.len() && best == (#[trigger] fs[c[j] as int]).severity;
    assert(best == fs[c[w] as int].severity);
    if exists|j: int| 0 <= j < c.len() && (#[trigger] fs[c[j] as int]).severity == Severity::Critical {
        let j = choose|j: int| 0 <= j < c.len() && (#[trigger] fs[c[j] as int]).severity == Severity::Critical;
        assert(best.rank() <= fs[c[j] as int].severity.rank());
    }
    if exists|j: int| 0 <= j < c.len() && (#[trigger] fs[c[j] as int]).severity == Severity::High {
        let j = choose|j: int| 0 <= j < c.len() && (#[trigger] fs[c[j] as int]).severity == Severity::High;
        assert(best.rank() <= fs[c[j] as int].severity.rank());
    }
    if exists|j: int| 0 <= j < c.len() && (#[trigger] fs[c[j] as int]).severity == Severity::Medium {
        let j = choose|j: int| 0 <= j < c.len() && (#[trigger] fs[c[j] as int]).severity == Severity::Medium;
        assert(best.rank() <= fs[c[j] as int].severity.rank());
    }
    if exists|j: int| 0 <= j < c.len() && (#[trigger] fs[c[j] as int]).severity == Severity::Low {
        let j = choose|j: int| 0 <= j < c.len() && (#[trigger] fs[c[j] as int]).severity == Severity::Low;
        assert(best.rank() <= fs[c[j] as int].severity.rank());
    }
}

/// Two descriptions are similar exactly when, once lower-cased, one contains
/// the other, or both have at least 20 characters and their first 20 agree.
pub proof fn law_similarity_criterion(a: Seq<char>, b: Seq<char>)
    ensures
        similar_spec(a, b) == (contains(lowercase(a), lowercase(b)) || contains(lowercase(b), lowercase(a))
            || (lowercase(a).len() >= 20 && lowercase(b).len() >= 20
                && lowercase(a).take(20) == lowercase(b).take(20))),
{
    let la = lowercase(a);
    let lb = lowercase(b);
    crate::text::law_common_prefix(la, lb);
    let c = common_prefix_len(la, lb) as int;
    if c >= 20 {
        assert(la.take(20) =~= la.take(c).take(20));
        assert(lb.take(20) =~= lb.take(c).take(20));
    }
    if la.len() >= 20 && lb.len() >= 20 && la.take(20) == lb.take(20) {
        if c < 20 {
            assert(la.take(20)[c] == lb.take(20)[c]);
        }
    }
}

/// A consensus report is in report order, and holds one merged finding per
/// cluster, no more and no fewer.
pub proof fn law_consensus_report(fs: Seq<FindingContent>, lowered: Seq<Seq<char>>)
    ensures
        priority_sorted(consensus_findings(fs, lowered)),
        consensus_findings(fs, lowered).to_multiset()
            == consensus_clusters(fs, lowered).map_values(|c: Seq<usize>| merged_content(fs, c)).to_multiset(),
        consensus_findings(fs, lowered).len() == consensus_clusters(fs, lowered).len(),
        consensus_findings(fs, lowered).len() <= fs.len(),
{
    lemma_sort_by_priority(consensus_clusters(fs, lowered).map_values(|c: Seq<usize>| merged_content(fs, c)));
    lemma_clusters_partition(fs, lowered);
}

} // verus!
