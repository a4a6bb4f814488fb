//! What the HTTP endpoints decide: which requests are refused and with what
//! answer, and what the accepted ones do to the swarm's state. Serving HTTP
//! is left to the caller.
use vstd::prelude::*;

use crate::agents::owned;
use crate::models::{
    contents, string_views, AgentConfig, AgentView, AnalyzeRequest, ConsensusRequest,
    ConsensusResult, ErrorResponse, RegisterAgentRequest, SwarmStats, SwarmTask, TaskStatus,
    TaskView,
};
use crate::swarm::consensus::{agreement_rate, consensus_findings, lowered_descriptions, ConsensusEngine};
use crate::swarm::state::{findings_with_ids, lookup, upsert, SwarmState};

verus! {

/// A refused request: the status to answer with and the error body.
#[derive(Debug)]
pub enum Rejection {
    /// 400: the request is malformed.
    BadRequest(ErrorResponse),
    /// 404: what the request names does not exist.
    NotFound(ErrorResponse),
}

impl Rejection {
    /// The HTTP status of the answer.
    pub open spec fn code(&self) -> u16 {
        match self {
            Rejection::BadRequest(_) => 400,
            Rejection::NotFound(_) => 404,
        }
    }

    /// The error message of the answer.
    pub open spec fn message(&self) -> Seq<char> {
        match self {
            Rejection::BadRequest(e) => e.error@,
            Rejection::NotFound(e) => e.error@,
        }
    }

    /// The error body is a failure.
    pub open spec fn is_failure(&self) -> bool {
        match self {
            Rejection::BadRequest(e) => !e.success,
            Rejection::NotFound(e) => !e.success,
        }
    }

    /// The HTTP status of the answer.
    pub fn status_code(&self) -> (c: u16)
        ensures
            c == self.code(),
    {
        match self {
            Rejection::BadRequest(_) => 400,
            Rejection::NotFound(_) => 404,
        }
    }

    /// The error body of the answer.
    pub fn into_body(self) -> (e: ErrorResponse)
        ensures
            e.error@ == self.message(),
            !e.success <==> self.is_failure(),
    {
        match self {
            Rejection::BadRequest(e) => e,
            Rejection::NotFound(e) => e,
        }
    }
}

/// A refusal with this status and message.
pub open spec fn refused<T>(r: Result<T, Rejection>, code: u16, msg: Seq<char>) -> bool {
    match r {
        Ok(_) => false,
        Err(e) => e.code() == code && e.message() == msg && e.is_failure(),
    }
}

/// The pending task an analysis request asks for, or a refusal (400) when
/// its data is empty.
pub fn prepare_analysis(req: AnalyzeRequest) -> (r: Result<SwarmTask, Rejection>)
    ensures
        req.data@.len() == 0 ==> refused(r, 400, "data must not be empty"@),
        req.data@.len() > 0 ==> match r {
            Ok(t) => {
                &&& t@.task_type == req.task_type
                &&& t@.data == req.data@
                &&& t@.requested_agents == string_views(req.agents@)
                &&& t@.status == TaskStatus::Pending
                &&& t@.findings.len() == 0
                &&& t@.completed_at.is_none()
            },
            Err(_) => false,
        },
{
    if req.data.as_str().is_empty() {
        return Err(Rejection::BadRequest(ErrorResponse::new("data must not be empty")));
    }
    Ok(SwarmTask::new(req.task_type, req.data, req.agents))
}

/// The stored task with this id, or a refusal (404).
pub fn get_task(state: &SwarmState, id: &str) -> (r: Result<SwarmTask, Rejection>)
    ensures
        match r {
            Ok(t) => lookup::<SwarmTask>(state.tasks@, id@) == Some(t@),
            Err(_) => lookup::<SwarmTask>(state.tasks@, id@).is_none() && refused(r, 404, "task not found"@),
        },
{
    match state.get_task(id) {
        Some(t) => Ok(t),
        None => Err(Rejection::NotFound(ErrorResponse::new("task not found"))),
    }
}

/// Registers the agent a request describes and returns its new id, or
/// refuses (400) a request without a name, leaving the state as it was.
pub fn register_agent(state: &mut SwarmState, req: RegisterAgentRequest) -> (r: Result<String, Rejection>)
    ensures
        req.name@.len() == 0 ==> refused(r, 400, "name must not be empty"@) && *final(state) == *old(state),
        req.name@.len() > 0 ==> match r {
            Ok(id) => exists|a: AgentView| {
                &&& a.id == id@
                &&& a.name == req.name@
                &&& a.agent_type == req.agent_type@
                &&& a.capabilities == string_views(req.capabilities@)
                &&& a.enabled
                &&& final(state).agents@ == upsert::<AgentConfig>(old(state).agents@, a)
                &&& lookup::<AgentConfig>(final(state).agents@, id@) == Some(a)
            },
            Err(_) => false,
        },
        final(state).tasks@ == old(state).tasks@,
        final(state).findings@ == old(state).findings@,
        final(state).consensus_results@ == old(state).consensus_results@,
{
    if req.name.as_str().is_empty() {
        return Err(Rejection::BadRequest(ErrorResponse::new("name must not be empty")));
    }
    let config = AgentConfig::new(req.name, req.agent_type, req.capabilities);
    let id = config.id.clone();
    let ghost a = config@;
    state.register_agent(config);
    Ok(id)
}

/// Runs consensus over the stored findings with the requested ids and
/// stores the result. Refuses an empty list of ids (400), and ids of which
/// none is stored (404); the state is then left as it was.
pub fn trigger_consensus(state: &mut SwarmState, req: &ConsensusRequest) -> (r: Result<ConsensusResult, Rejection>)
    ensures
        req.finding_ids@.len() == 0 ==> refused(r, 400, "finding_ids must not be empty"@) && *final(state) == *old(state),
        req.finding_ids@.len() > 0 && findings_with_ids(old(state).findings@, string_views(req.finding_ids@)).len() == 0
            ==> refused(r, 404, "no findings found for given IDs"@) && *final(state) == *old(state),
        req.finding_ids@.len() > 0 && findings_with_ids(old(state).findings@, string_views(req.finding_ids@)).len() > 0
            ==> match r {
            Ok(c) => {
                let found = findings_with_ids(old(state).findings@, string_views(req.finding_ids@));
                &&& contents(c.merged_findings@) == consensus_findings(contents(found), lowered_descriptions(found))
                &&& c.total_input_findings == found.len()
                &&& c.total_merged_findings == c.merged_findings@.len()
                &&& c.agreement_rate == agreement_rate(found.len() as nat, c.total_merged_findings as nat)
                &&& final(state).consensus_results@ == upsert::<ConsensusResult>(old(state).consensus_results@, c@)
                &&& lookup::<ConsensusResult>(final(state).consensus_results@, c@.id) == Some(c@)
            },
            Err(_) => false,
        },
        final(state).tasks@ == old(state).tasks@,
        final(state).agents@ == old(state).agents@,
        final(state).findings@ == old(state).findings@,
{
    if req.finding_ids.len() == 0 {
        return Err(Rejection::BadRequest(ErrorResponse::new("finding_ids must not be empty")));
    }
    let findings = state.get_findings_by_ids(req.finding_ids.as_slice());
    if findings.len() == 0 {
        return Err(Rejection::NotFound(ErrorResponse::new("no findings found for given IDs")));
    }
    let result = ConsensusEngine::run(&findings);
    state.insert_consensus(result.clone());
    Ok(result)
}

/// How many tasks have this status.
pub open spec fn count_status(ts: Seq<TaskView>, st: TaskStatus) -> nat
    decreases ts.len(),
{
    if ts.len() == 0 {
        0
    } else {
        count_status(ts.drop_last(), st) + if ts.last().status == st {
            1nat
        } else {
            0nat
        }
    }
}

/// One entry for a status that some task has.
pub open spec fn status_entry(name: Seq<char>, n: nat) -> Seq<(Seq<char>, nat)> {
    if n > 0 {
        seq![(name, n)]
    } else {
        Seq::empty()
    }
}

/// The statuses that some task has, with their numbers of tasks.
pub open spec fn status_counts(ts: Seq<TaskView>) -> Seq<(Seq<char>, nat)> {
    status_entry("pending"@, count_status(ts, TaskStatus::Pending)) + status_entry(
        "running"@,
        count_status(ts, TaskStatus::Running),
    ) + status_entry("completed"@, count_status(ts, TaskStatus::Completed)) + status_entry(
        "failed"@,
        count_status(ts, TaskStatus::Failed),
    )
}

/// The sum of the agreement rates.
pub open spec fn rate_sum(cs: Seq<crate::models::ConsensusView>) -> nat
    decreases cs.len(),
{
    if cs.len() == 0 {
        0
    } else {
        rate_sum(cs.drop_last()) + cs.last().agreement_rate as nat
    }
}

/// The mean agreement rate, or 0 without any consensus run.
pub open spec fn mean_rate(cs: Seq<crate::models::ConsensusView>) -> nat {
    if cs.len() == 0 {
        0
    } else {
        rate_sum(cs) / cs.len()
    }
}

/// Status entries as values.
pub open spec fn entry_views(v: Seq<(String, usize)>) -> Seq<(Seq<char>, nat)> {
    v.map_values(|e: (String, usize)| (e.0@, e.1 as nat))
}

proof fn lemma_count_status_le(ts: Seq<TaskView>, st: TaskStatus)
    ensures
        count_status(ts, st) <= ts.len(),
    decreases ts.len(),
{
    if ts.len() > 0 {
        lemma_count_status_le(ts.drop_last(), st);
    }
}

proof fn lemma_rate_sum_le(cs: Seq<crate::models::ConsensusView>)
    ensures
        rate_sum(cs) <= cs.len() * 0xFFFF_FFFFnat,
    decreases cs.len(),
{
    if cs.len() > 0 {
        lemma_rate_sum_le(cs.drop_last());
        assert(cs.len() * 0xFFFF_FFFFnat == (cs.len() - 1) * 0xFFFF_FFFFnat + 0xFFFF_FFFFnat) by (nonlinear_arith);
    } else {
        assert(cs.len() * 0xFFFF_FFFFnat == 0) by (nonlinear_arith)
            requires
                cs.len() == 0,
        ;
    }
}

/// Appends the entry for a status when some task has it.
fn push_entry(out: &mut Vec<(String, usize)>, name: &str, n: usize)
    ensures
        entry_views(final(out)@) == entry_views(old(out)@) + status_entry(name@, n as nat),
{
    let ghost before = entry_views(out@);
    if n > 0 {
        out.push((owned(name), n));
        assert(entry_views(out@) =~= before + status_entry(name@, n as nat));
    } else {
        assert(entry_views(out@) =~= before + status_entry(name@, n as nat));
    }
}

/// Totals over the swarm: tasks, agents, findings, the mean agreement rate
/// of the consensus runs, and the tasks per status.
pub fn stats(state: &SwarmState) -> (s: SwarmStats)
    ensures
        s.total_tasks == state.tasks@.len(),
        s.total_agents == state.agents@.len(),
        s.total_findings == state.findings@.len(),
        s.consensus_rate == mean_rate(state.consensus_results@),
        entry_views(s.tasks_by_status@) == status_counts(state.tasks@),
{
    let tasks = state.list_tasks();
    let ghost tv = state.tasks@;
    let mut pending: usize = 0;
    let mut running: usize = 0;
    let mut completed: usize = 0;
    let mut failed: usize = 0;
    let mut i: usize = 0;
    while i < tasks.len()
        invariant
            i <= tasks@.len(),
            tasks@.map_values(|t: SwarmTask| t@) == tv,
            pending == count_status(tv.take(i as int), TaskStatus::Pending),
            running == count_status(tv.take(i as int), TaskStatus::Running),
            completed == count_status(tv.take(i as int), TaskStatus::Completed),
            failed == count_status(tv.take(i as int), TaskStatus::Failed),
            pending + running + completed + failed <= i,
        decreases tasks.len() - i,
    {
        assert(tv.take(i + 1).drop_last() =~= tv.take(i as int));
        assert(tv.take(i + 1).last() == tasks@[i as int]@);
        match tasks[i].status {
            TaskStatus::Pending => pending = pending + 1,
            TaskStatus::Running => running = running + 1,
            TaskStatus::Completed => completed = completed + 1,
            TaskStatus::Failed => failed = failed + 1,
        }
        i = i + 1;
    }
    assert(tv.take(tasks@.len() as int) =~= tv);
    let mut by_status: Vec<(String, usize)> = Vec::new();
    push_entry(&mut by_status, "pending", pending);
    push_entry(&mut by_status, "running", running);
    push_entry(&mut by_status, "completed", completed);
    push_entry(&mut by_status, "failed", failed);
    assert(entry_views(by_status@) =~= status_counts(tv));
    let results = state.list_consensus();
    let ghost cv = state.consensus_results@;
    let mut sum: u128 = 0;
    let mut k: usize = 0;
    while k < results.len()
        invariant
            k <= results@.len(),
            results@.map_values(|c: ConsensusResult| c@) == cv,
            sum == rate_sum(cv.take(k as int)),
        decreases results.len() - k,
    {
        assert(cv.take(k + 1).drop_last() =~= cv.take(k as int));
        assert(cv.take(k + 1).last() == results@[k as int]@);
        proof {
            lemma_rate_sum_le(cv.take(k as int));
        }
        assert(sum <= k * 0xFFFF_FFFFu128) by (nonlinear_arith)
            requires
                sum <= cv.take(k as int).len() * 0xFFFF_FFFFnat,
                cv.take(k as int).len() == k,
        ;
        assert(k * 0xFFFF_FFFFu128 + 0xFFFF_FFFFu128 < 0xFFFF_FFFF_FFFF_FFFF_FFFF_FFFF_FFFF_FFFFu128) by (nonlinear_arith)
            requires
                k <= usize::MAX,
        ;
        sum = sum + results[k].agreement_rate as u128;
        k = k + 1;
    }
    assert(cv.take(results@.len() as int) =~= cv);
    let n = results.len();
    let rate: u32 = if n == 0 {
        0
    } else {
        proof {
            lemma_rate_sum_le(cv);
        }
        assert(sum / (n as u128) <= 0xFFFF_FFFFu128) by (nonlinear_arith)
            requires
                sum <= n * 0xFFFF_FFFFu128,
                n > 0,
        ;
        (sum / (n as u128)) as u32
    };
    SwarmStats {
        total_tasks: tasks.len(),
        total_agents: state.agents.len(),
        total_findings: state.findings.len(),
        consensus_rate: rate,
        tasks_by_status: by_status,
    }
}

} // verus!
