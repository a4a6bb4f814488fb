//! The swarm manager's decisions: which workers a task goes to, how their
//! results are collected, and how a task moves from pending to completed.
//! Running the workers themselves is left to the caller.
use vstd::prelude::*;

use crate::ids::now_millis;
use crate::models::{
    contents, string_views, AgentError, ConsensusResult, Finding, SwarmTask,
    TaskStatus, TaskType, TaskView,
};
use crate::swarm::consensus::{agreement_rate, consensus_findings, lowered_descriptions, ConsensusEngine};
use crate::swarm::state::{keys_unique, law_lookup_after_upsert, lookup, upsert, SwarmState};
use crate::text::{chars_of, contains, contains_str, lowercase, to_lowercase};

verus! {

/// What the manager knows of a worker: its name and its capabilities.
pub struct WorkerInfo {
    pub name: String,
    pub capabilities: Vec<String>,
}

/// A worker as a value.
pub struct WorkerView {
    pub name: Seq<char>,
    pub capabilities: Seq<Seq<char>>,
}

impl View for WorkerInfo {
    type V = WorkerView;

    open spec fn view(&self) -> WorkerView {
        WorkerView { name: self.name@, capabilities: string_views(self.capabilities@) }
    }
}

/// The workers of `ws` in order, with a worker named `w.name` replaced by
/// `w`, or `w` added at the end.
pub open spec fn register(ws: Seq<WorkerView>, w: WorkerView) -> Seq<WorkerView> {
    if exists|i: int| 0 <= i < ws.len() && (#[trigger] ws[i]).name == w.name {
        ws.update(choose|i: int| 0 <= i < ws.len() && (#[trigger] ws[i]).name == w.name, w)
    } else {
        ws.push(w)
    }
}

/// Registering a worker adds its name to the registered names and no other;
/// the worker registered under that name is the new one, and the number of
/// workers grows by one only for a new name.
pub proof fn law_register_names(ws: Seq<WorkerView>, w: WorkerView, n: Seq<char>)
    ensures
        registered(register(ws, w), n) <==> (registered(ws, n) || n == w.name),
        exists|i: int| 0 <= i < register(ws, w).len() && register(ws, w)[i] == w,
        register(ws, w).len() == ws.len() + if registered(ws, w.name) { 0int } else { 1int },
{
    let r = register(ws, w);
    if registered(ws, w.name) {
        let p = choose|i: int| 0 <= i < ws.len() && (#[trigger] ws[i]).name == w.name;
        assert(r[p] == w);
        if registered(ws, n) {
            let q = choose|i: int| 0 <= i < ws.len() && (#[trigger] ws[i]).name == n;
            if q != p {
                assert(r[q] == ws[q]);
            }
        }
        if registered(r, n) {
            let q = choose|i: int| 0 <= i < r.len() && (#[trigger] r[i]).name == n;
            if q != p {
                assert(r[q] == ws[q]);
            }
        }
    } else {
        assert(r[ws.len() as int] == w);
        if registered(ws, n) {
            let q = choose|i: int| 0 <= i < ws.len() && (#[trigger] ws[i]).name == n;
            assert(r[q] == ws[q]);
        }
        if registered(r, n) {
            let q = choose|i: int| 0 <= i < r.len() && (#[trigger] r[i]).name == n;
            if q < ws.len() {
                assert(r[q] == ws[q]);
            }
        }
    }
}

/// The workers able to handle a keyword are, in order, the names of exactly
/// those workers with a capability whose lower-cased form contains it.
pub proof fn law_workers_for_members(ws: Seq<WorkerView>, kw: Seq<char>)
    ensures
        forall|i: int| 0 <= i < ws.len() && (exists|c: int| 0 <= c < ws[i].capabilities.len()
            && contains(lowercase(#[trigger] ws[i].capabilities[c]), kw))
            ==> workers_for(ws, kw).contains(ws[i].name),
        forall|p: int| #![trigger workers_for(ws, kw)[p]] 0 <= p < workers_for(ws, kw).len() ==> exists|i: int| 0 <= i < ws.len()
            && (#[trigger] ws[i]).name == workers_for(ws, kw)[p]
            && exists|c: int| 0 <= c < ws[i].capabilities.len() && contains(lowercase(ws[i].capabilities[c]), kw),
    decreases ws.len(),
{
    if ws.len() > 0 {
        let init = ws.drop_last();
        let w = ws.last();
        law_workers_for_members(init, kw);
        let prev = workers_for(init, kw);
        let tail = if capable(w.capabilities, kw) { seq![w.name] } else { Seq::<Seq<char>>::empty() };
        let r = workers_for(ws, kw);
        assert(r == prev + tail);
        assert forall|i: int| 0 <= i < ws.len() && (exists|c: int| 0 <= c < ws[i].capabilities.len()
            && contains(lowercase(#[trigger] ws[i].capabilities[c]), kw)) implies r.contains(ws[i].name) by {
            if i < init.len() {
                assert(init[i] == ws[i]);
                let c = choose|c: int| 0 <= c < ws[i].capabilities.len() && contains(lowercase(ws[i].capabilities[c]), kw);
                assert(contains(lowercase(init[i].capabilities[c]), kw));
                let q = choose|q: int| 0 <= q < prev.len() && prev[q] == init[i].name;
                assert(r[q] == prev[q]);
            } else {
                let c = choose|c: int| 0 <= c < ws[i].capabilities.len() && contains(lowercase(ws[i].capabilities[c]), kw);
                assert(capable(w.capabilities, kw));
                assert(r[prev.len() as int] == w.name);
            }
        }
        assert forall|p: int| #![trigger r[p]] 0 <= p < r.len() implies exists|i: int| 0 <= i < ws.len()
            && (#[trigger] ws[i]).name == r[p]
            && exists|c: int| 0 <= c < ws[i].capabilities.len() && contains(lowercase(ws[i].capabilities[c]), kw) by {
            if p < prev.len() {
                assert(r[p] == prev[p]);
                let i = choose|i: int| 0 <= i < init.len() && (#[trigger] init[i]).name == prev[p]
                    && exists|c: int| 0 <= c < init[i].capabilities.len() && contains(lowercase(init[i].capabilities[c]), kw);
                assert(ws[i] == init[i]);
            } else {
                let i = ws.len() - 1;
                assert(ws[i] == w);
                let c = choose|c: int| 0 <= c < w.capabilities.len() && contains(lowercase(#[trigger] w.capabilities[c]), kw);
            }
        }
    }
}

/// A task that names no workers goes to the workers whose capabilities
/// mention its type: "log" for log analysis, "health" for a health check,
/// "incident" for an incident.
pub proof fn law_task_type_routing(ws: Seq<WorkerView>, t: TaskView)
    requires
        t.requested_agents.len() == 0,
    ensures
        t.task_type == TaskType::LogAnalysis ==> selected_workers(ws, t) == workers_for(ws, "log"@),
        t.task_type == TaskType::HealthCheck ==> selected_workers(ws, t) == workers_for(ws, "health"@),
        t.task_type == TaskType::Incident ==> selected_workers(ws, t) == workers_for(ws, "incident"@),
{
}

/// A task that names workers goes to exactly the named workers that are
/// registered, in the order named.
pub proof fn law_requested_routing(ws: Seq<WorkerView>, names: Seq<Seq<char>>)
    ensures
        forall|j: int| 0 <= j < names.len() && (exists|i: int| 0 <= i < ws.len() && (#[trigger] ws[i]).name == names[j])
            ==> requested_workers(ws, names).contains(#[trigger] names[j]),
        forall|p: int| #![trigger requested_workers(ws, names)[p]] 0 <= p < requested_workers(ws, names).len()
            ==> names.contains(requested_workers(ws, names)[p])
                && exists|i: int| 0 <= i < ws.len() && (#[trigger] ws[i]).name == requested_workers(ws, names)[p],
    decreases names.len(),
{
    if names.len() > 0 {
        let init = names.drop_last();
        let n = names.last();
        law_requested_routing(ws, init);
        let prev = requested_workers(ws, init);
        let tail = if registered(ws, n) { seq![n] } else { Seq::<Seq<char>>::empty() };
        let r = requested_workers(ws, names);
        assert(r == prev + tail);
        assert forall|j: int| 0 <= j < names.len() && (exists|i: int| 0 <= i < ws.len() && (#[trigger] ws[i]).name == names[j])
            implies r.contains(#[trigger] names[j]) by {
            if j < init.len() {
                assert(init[j] == names[j]);
                let q = choose|q: int| 0 <= q < prev.len() && prev[q] == init[j];
                assert(r[q] == prev[q]);
            } else {
                assert(registered(ws, n));
                assert(r[prev.len() as int] == n);
            }
        }
        assert forall|p: int| #![trigger r[p]] 0 <= p < r.len()
            implies names.contains(r[p]) && exists|i: int| 0 <= i < ws.len() && (#[trigger] ws[i]).name == r[p] by {
            if p < prev.len() {
                assert(r[p] == prev[p]);
                let j = choose|j: int| 0 <= j < init.len() && init[j] == prev[p];
                assert(names[j] == init[j]);
            } else {
                assert(names[names.len() - 1] == n);
            }
        }
    }
}

/// No two workers share a name.
pub open spec fn names_unique(ws: Seq<WorkerView>) -> bool {
    forall|i: int, j: int| 0 <= i < ws.len() && 0 <= j < ws.len() && i != j
        ==> (#[trigger] ws[i]).name != (#[trigger] ws[j]).name
}

/// The word a worker's capability must contain to serve a task type.
pub open spec fn keyword(t: TaskType) -> Seq<char> {
    match t {
        TaskType::LogAnalysis => "log"@,
        TaskType::HealthCheck => "health"@,
        TaskType::Incident => "incident"@,
    }
}

/// Some lower-cased capability contains `kw`.
pub open spec fn capable(caps: Seq<Seq<char>>, kw: Seq<char>) -> bool {
    exists|i: int| 0 <= i < caps.len() && contains(lowercase(#[trigger] caps[i]), kw)
}

/// The names of the workers with a capability for `kw`, in order.
pub open spec fn workers_for(ws: Seq<WorkerView>, kw: Seq<char>) -> Seq<Seq<char>>
    decreases ws.len(),
{
    if ws.len() == 0 {
        Seq::empty()
    } else {
        workers_for(ws.drop_last(), kw) + if capable(ws.last().capabilities, kw) {
            seq![ws.last().name]
        } else {
            Seq::empty()
        }
    }
}

/// A worker with this name is registered.
pub open spec fn registered(ws: Seq<WorkerView>, name: Seq<char>) -> bool {
    exists|i: int| 0 <= i < ws.len() && (#[trigger] ws[i]).name == name
}

/// The requested names that belong to registered workers, in the order
/// requested.
pub open spec fn requested_workers(ws: Seq<WorkerView>, names: Seq<Seq<char>>) -> Seq<Seq<char>>
    decreases names.len(),
{
    if names.len() == 0 {
        Seq::empty()
    } else {
        requested_workers(ws, names.drop_last()) + if registered(ws, names.last()) {
            seq![names.last()]
        } else {
            Seq::empty()
        }
    }
}

/// The workers a task goes to: those it names, or, when it names none,
/// those able to handle its type.
pub open spec fn selected_workers(ws: Seq<WorkerView>, t: TaskView) -> Seq<Seq<char>> {
    if t.requested_agents.len() == 0 {
        workers_for(ws, keyword(t.task_type))
    } else {
        requested_workers(ws, t.requested_agents)
    }
}

/// The findings of the workers that succeeded, in order.
pub open spec fn successful_findings(outcomes: Seq<Result<Vec<Finding>, AgentError>>) -> Seq<Finding>
    decreases outcomes.len(),
{
    if outcomes.len() == 0 {
        Seq::empty()
    } else {
        successful_findings(outcomes.drop_last()) + match outcomes.last() {
            Ok(v) => v@,
            Err(_) => Seq::empty(),
        }
    }
}

/// The findings stored one after the other.
pub open spec fn store_all(s: Seq<Finding>, fs: Seq<Finding>) -> Seq<Finding>
    decreases fs.len(),
{
    if fs.len() == 0 {
        s
    } else {
        upsert::<Finding>(store_all(s, fs.drop_last()), fs.last())
    }
}

/// Storing findings one after the other keeps ids unique; each finding
/// whose id no later finding reuses reads back as stored, and ids that none
/// of them has read back as before.
#[verifier::spinoff_prover]
pub proof fn law_store_all_reads_back(s: Seq<Finding>, fs: Seq<Finding>)
    requires
        keys_unique::<Finding>(s),
    ensures
        keys_unique::<Finding>(store_all(s, fs)),
        forall|i: int| 0 <= i < fs.len() && last_with_id(fs, i)
            ==> lookup::<Finding>(store_all(s, fs), (#[trigger] fs[i]).id@) == Some(fs[i]),
        forall|k: Seq<char>| !has_id(fs, k)
            ==> #[trigger] lookup::<Finding>(store_all(s, fs), k) == lookup::<Finding>(s, k),
    decreases fs.len(),
{
    if fs.len() > 0 {
        let init = fs.drop_last();
        let v = fs.last();
        law_store_all_reads_back(s, init);
        let r = store_all(s, init);
        assert(store_all(s, fs) == upsert::<Finding>(r, v));
        law_lookup_after_upsert::<Finding>(r, v, v.id@);
        assert forall|i: int| 0 <= i < fs.len() && last_with_id(fs, i)
            implies lookup::<Finding>(store_all(s, fs), (#[trigger] fs[i]).id@) == Some(fs[i]) by {
            if i < fs.len() - 1 {
                assert(fs[fs.len() - 1].id@ != fs[i].id@);
                assert(init[i] == fs[i]);
                assert(last_with_id(init, i)) by {
                    assert forall|j: int| i < j < init.len() implies (#[trigger] init[j]).id@ != init[i].id@ by {
                        assert(init[j] == fs[j]);
                    }
                }
                law_lookup_after_upsert::<Finding>(r, v, fs[i].id@);
            }
        }
        assert forall|k: Seq<char>| !has_id(fs, k)
            implies #[trigger] lookup::<Finding>(store_all(s, fs), k) == lookup::<Finding>(s, k) by {
            assert(fs[fs.len() - 1].id@ != k);
            assert(!has_id(init, k)) by {
                if has_id(init, k) {
                    let j = choose|j: int| 0 <= j < init.len() && (#[trigger] init[j]).id@ == k;
                    assert(fs[j] == init[j]);
                }
            }
            law_lookup_after_upsert::<Finding>(r, v, k);
        }
    }
}

/// No later finding of `fs` than the one at `i` has its id.
pub open spec fn last_with_id(fs: Seq<Finding>, i: int) -> bool {
    forall|j: int| i < j < fs.len() ==> (#[trigger] fs[j]).id@ != fs[i].id@
}

/// Some finding of `fs` has the id `k`.
pub open spec fn has_id(fs: Seq<Finding>, k: Seq<char>) -> bool {
    exists|j: int| 0 <= j < fs.len() && (#[trigger] fs[j]).id@ == k
}

/// The task as it is once running.
pub open spec fn running(t: TaskView) -> TaskView {
    TaskView { status: TaskStatus::Running, ..t }
}

/// The word for a task type.
pub fn task_keyword(t: TaskType) -> (k: &'static str)
    ensures
        k@ == keyword(t),
{
    match t {
        TaskType::LogAnalysis => "log",
        TaskType::HealthCheck => "health",
        TaskType::Incident => "incident",
    }
}

/// Keeps the findings of the workers that succeeded, in order.
pub fn collect_findings(outcomes: Vec<Result<Vec<Finding>, AgentError>>) -> (all: Vec<Finding>)
    ensures
        all@ == successful_findings(outcomes@),
{
    let ghost ov = outcomes@;
    let n = outcomes.len();
    let mut all: Vec<Finding> = Vec::new();
    let mut rest = outcomes;
    let mut i: usize = 0;
    while rest.len() > 0
        invariant
            i + rest@.len() == ov.len(),
            ov.len() == n,
            rest@ == ov.skip(i as int),
            all@ == successful_findings(ov.take(i as int)),
        decreases rest.len(),
    {
        let ghost before = all@;
        let o = rest.remove(0);
        assert(o == ov[i as int]);
        assert(ov.take(i + 1).drop_last() =~= ov.take(i as int));
        assert(ov.take(i + 1).last() == o);
        match o {
            Ok(mut v) => {
                let ghost vv = v@;
                all.append(&mut v);
                assert(all@ =~= before + vv);
            },
            Err(_) => {
                assert(all@ =~= before + Seq::<Finding>::empty());
            },
        }
        assert(rest@ =~= ov.skip(i + 1));
        i = i + 1;
    }
    assert(ov.take(ov.len() as int) =~= ov);
    all
}

/// Marks a task running and stores it.
pub fn begin_task(state: &mut SwarmState, task: &mut SwarmTask)
    ensures
        final(task)@ == running(old(task)@),
        final(state).tasks@ == upsert::<SwarmTask>(old(state).tasks@, final(task)@),
        lookup::<SwarmTask>(final(state).tasks@, final(task)@.id) == Some(final(task)@),
        forall|k: Seq<char>| k != final(task)@.id
            ==> #[trigger] lookup::<SwarmTask>(final(state).tasks@, k) == lookup::<SwarmTask>(old(state).tasks@, k),
        final(state).agents@ == old(state).agents@,
        final(state).findings@ == old(state).findings@,
        final(state).consensus_results@ == old(state).consensus_results@,
{
    task.status = TaskStatus::Running;
    let copy = task.clone();
    state.update_task(copy);
}

/// Completes a task with the findings its workers produced: stores every
/// finding, runs consensus over them, stores the consensus result, and
/// stores the task as completed with the merged findings, which it returns.
#[verifier::spinoff_prover]
#[verifier::rlimit(40)]
pub fn finish_task(state: &mut SwarmState, task: &mut SwarmTask, all: Vec<Finding>) -> (merged: Vec<Finding>)
    ensures
        contents(merged@) == consensus_findings(contents(all@), lowered_descriptions(all@)),
        final(task)@.findings == merged@,
        final(task)@.status == TaskStatus::Completed,
        final(task)@.completed_at.is_some(),
        final(task)@.id == old(task)@.id,
        final(task)@.task_type == old(task)@.task_type,
        final(task)@.data == old(task)@.data,
        final(task)@.requested_agents == old(task)@.requested_agents,
        final(task)@.created_at == old(task)@.created_at,
        final(state).findings@ == store_all(old(state).findings@, all@),
        final(state).tasks@ == upsert::<SwarmTask>(old(state).tasks@, final(task)@),
        final(state).agents@ == old(state).agents@,
        lookup::<SwarmTask>(final(state).tasks@, final(task)@.id) == Some(final(task)@),
        forall|k: Seq<char>| k != final(task)@.id
            ==> #[trigger] lookup::<SwarmTask>(final(state).tasks@, k) == lookup::<SwarmTask>(old(state).tasks@, k),
        forall|i: int| 0 <= i < all@.len() && last_with_id(all@, i)
            ==> lookup::<Finding>(final(state).findings@, (#[trigger] all@[i]).id@) == Some(all@[i]),
        exists|c: ConsensusResult| {
            &&& final(state).consensus_results@ == upsert::<ConsensusResult>(old(state).consensus_results@, c@)
            &&& lookup::<ConsensusResult>(final(state).consensus_results@, c@.id) == Some(c@)
            &&& c.merged_findings@ == merged@
            &&& c.total_input_findings == all@.len()
            &&& c.total_merged_findings == merged@.len()
            &&& c.agreement_rate == agreement_rate(all@.len() as nat, merged@.len() as nat)
        },
{
    // The stored findings' ids are unique before any is added.
    let _stored: usize = state.findings.len();
    let mut i: usize = 0;
    let ghost start = state.findings@;
    while i < all.len()
        invariant
            i <= all@.len(),
            state.findings@ == store_all(start, all@.take(i as int)),
            state.tasks@ == old(state).tasks@,
            state.agents@ == old(state).agents@,
            state.consensus_results@ == old(state).consensus_results@,
            keys_unique::<Finding>(start),
        decreases all.len() - i,
    {
        assert(all@.take(i + 1).drop_last() =~= all@.take(i as int));
        assert(all@.take(i + 1).last() == all@[i as int]);
        state.insert_finding(all[i].clone());
        i = i + 1;
    }
    assert(all@.take(all@.len() as int) =~= all@);
    proof {
        law_store_all_reads_back(start, all@);
    }
    let consensus = ConsensusEngine::run(&all);
    let merged = consensus.merged_findings.clone();
    assert(merged@ =~= consensus.merged_findings@);
    let ghost cview = consensus@;
    state.insert_consensus(consensus);
    task.findings = merged.clone();
    assert(task.findings@ =~= merged@);
    task.status = TaskStatus::Completed;
    task.completed_at = Some(now_millis());
    let copy = task.clone();
    state.update_task(copy);
    merged
}

/// The manager's registry of workers, by name.
pub struct SwarmManager {
    workers: Vec<WorkerInfo>,
}

impl SwarmManager {
    #[verifier::type_invariant]
    spec fn inv(&self) -> bool {
        names_unique(self.workers@.map_values(|w: WorkerInfo| w@))
    }

    /// The registered workers, in order of first registration.
    pub closed spec fn workers(&self) -> Seq<WorkerView> {
        self.workers@.map_values(|w: WorkerInfo| w@)
    }

    /// A manager with no workers.
    pub fn new() -> (m: Self)
        ensures
            m.workers().len() == 0,
    {
        let m = SwarmManager { workers: Vec::new() };
        assert(m.workers@.map_values(|w: WorkerInfo| w@) =~= Seq::<WorkerView>::empty());
        m
    }

    /// Registers a worker under its name, replacing one with the same name.
    pub fn register_worker(&mut self, worker: WorkerInfo)
        ensures
            final(self).workers() == register(old(self).workers(), worker@),
            names_unique(final(self).workers()),
    {
        proof {
            use_type_invariant(&*self);
        }
        let ghost ws = self.workers@.map_values(|w: WorkerInfo| w@);
        let found = self.position_of(&worker.name);
        let i: usize = match found {
            Some(p) => p,
            None => self.workers.len(),
        };
        let mut workers = Vec::new();
        std::mem::swap(&mut workers, &mut self.workers);
        if i < workers.len() {
            assert(ws[i as int].name == worker@.name);
            let ghost c = choose|k: int| 0 <= k < ws.len() && (#[trigger] ws[k]).name == worker@.name;
            assert(c == i) by {
                if c != i {
                    assert(ws[c].name == ws[i as int].name);
                }
            }
            workers.set(i, worker);
            assert(workers@.map_values(|w: WorkerInfo| w@) =~= register(ws, worker@));
        } else {
            workers.push(worker);
            assert(workers@.map_values(|w: WorkerInfo| w@) =~= register(ws, worker@));
        }
        let ghost r = workers@.map_values(|w: WorkerInfo| w@);
        assert forall|a: int, b: int| 0 <= a < r.len() && 0 <= b < r.len() && a != b
            implies (#[trigger] r[a]).name != (#[trigger] r[b]).name by {
            if a != i as int && b != i as int {
                assert(r[a] == ws[a] && r[b] == ws[b]);
            } else if a == i as int {
                assert(r[b] == ws[b]);
            } else {
                assert(r[a] == ws[a]);
            }
        }
        self.workers = workers;
    }

    /// The names of all registered workers.
    pub fn worker_names(&self) -> (names: Vec<String>)
        ensures
            string_views(names@) == self.workers().map_values(|w: WorkerView| w.name),
    {
        let ghost ws = self.workers();
        let mut names: Vec<String> = Vec::new();
        let mut i: usize = 0;
        while i < self.workers.len()
            invariant
                i <= self.workers@.len(),
                ws == self.workers(),
                string_views(names@) == ws.map_values(|w: WorkerView| w.name).take(i as int),
            decreases self.workers.len() - i,
        {
            let ghost before = string_views(names@);
            names.push(self.workers[i].name.clone());
            assert(string_views(names@) =~= before.push(ws[i as int].name));
            assert(ws.map_values(|w: WorkerView| w.name).take(i + 1) =~= ws.map_values(|w: WorkerView| w.name).take(i as int).push(ws[i as int].name));
            i = i + 1;
        }
        assert(ws.map_values(|w: WorkerView| w.name).take(self.workers@.len() as int) =~= ws.map_values(|w: WorkerView| w.name));
        names
    }

    /// Whether some capability of this worker, lower-cased, contains `kw`.
    fn is_capable(w: &WorkerInfo, kw: &str) -> (b: bool)
        ensures
            b == capable(w@.capabilities, kw@),
    {
        let ghost caps = w@.capabilities;
        let mut i: usize = 0;
        while i < w.capabilities.len()
            invariant
                i <= w.capabilities@.len(),
                caps == w@.capabilities,
                forall|j: int| 0 <= j < i ==> !contains(lowercase(#[trigger] caps[j]), kw@),
            decreases w.capabilities.len() - i,
        {
            let low = to_lowercase(w.capabilities[i].as_str());
            let lc = chars_of(low.as_str());
            if contains_str(&lc, kw) {
                assert(contains(lowercase(caps[i as int]), kw@));
                return true;
            }
            i = i + 1;
        }
        false
    }

    /// The names of the workers able to handle a task type, in order.
    pub fn workers_for_task_type(&self, task_type: TaskType) -> (names: Vec<String>)
        ensures
            string_views(names@) == workers_for(self.workers(), keyword(task_type)),
    {
        let ghost ws = self.workers();
        let kw = task_keyword(task_type);
        let mut names: Vec<String> = Vec::new();
        let mut i: usize = 0;
        while i < self.workers.len()
            invariant
                i <= self.workers@.len(),
                ws == self.workers(),
                kw@ == keyword(task_type),
                string_views(names@) == workers_for(ws.take(i as int), kw@),
            decreases self.workers.len() - i,
        {
            let ghost before = string_views(names@);
            assert(ws.take(i + 1).drop_last() =~= ws.take(i as int));
            assert(ws.take(i + 1).last() == ws[i as int]);
            if Self::is_capable(&self.workers[i], kw) {
                names.push(self.workers[i].name.clone());
                assert(string_views(names@) =~= before + seq![ws[i as int].name]);
            } else {
                assert(string_views(names@) =~= before + Seq::<Seq<char>>::empty());
            }
            i = i + 1;
        }
        assert(ws.take(self.workers@.len() as int) =~= ws);
        names
    }

    /// Where the worker with this name stands, if registered.
    fn position_of(&self, name: &String) -> (p: Option<usize>)
        ensures
            match p {
                Some(i) => i < self.workers().len() && self.workers()[i as int].name == name@,
                None => !registered(self.workers(), name@),
            },
    {
        let ghost ws = self.workers();
        let mut i: usize = 0;
        while i < self.workers.len()
            invariant
                i <= self.workers@.len(),
                ws == self.workers(),
                forall|j: int| 0 <= j < i ==> (#[trigger] ws[j]).name != name@,
            decreases self.workers.len() - i,
        {
            if self.workers[i].name == *name {
                return Some(i);
            }
            i = i + 1;
        }
        None
    }

    /// Whether a worker with this name is registered.
    fn has_worker(&self, name: &String) -> (b: bool)
        ensures
            b == registered(self.workers(), name@),
    {
        let ghost ws = self.workers();
        let mut i: usize = 0;
        while i < self.workers.len()
            invariant
                i <= self.workers@.len(),
                ws == self.workers(),
                forall|j: int| 0 <= j < i ==> (#[trigger] ws[j]).name != name@,
            decreases self.workers.len() - i,
        {
            if self.workers[i].name == *name {
                assert(ws[i as int].name == name@);
                return true;
            }
            i = i + 1;
        }
        false
    }

    /// The workers a task goes to: those it names that are registered, in
    /// the order named, or, when it names none, those able to handle its
    /// type.
    pub fn select_workers(&self, task: &SwarmTask) -> (names: Vec<String>)
        ensures
            string_views(names@) == selected_workers(self.workers(), task@),
    {
        if task.requested_agents.len() == 0 {
            return self.workers_for_task_type(task.task_type);
        }
        let ghost ws = self.workers();
        let ghost req = task@.requested_agents;
        let mut names: Vec<String> = Vec::new();
        let mut i: usize = 0;
        while i < task.requested_agents.len()
            invariant
                i <= task.requested_agents@.len(),
                ws == self.workers(),
                req == task@.requested_agents,
                string_views(names@) == requested_workers(ws, req.take(i as int)),
            decreases task.requested_agents.len() - i,
        {
            let ghost before = string_views(names@);
            let n = &task.requested_agents[i];
            assert(req.take(i + 1).drop_last() =~= req.take(i as int));
            assert(req.take(i + 1).last() == n@);
            if self.has_worker(n) {
                names.push(n.clone());
                assert(string_views(names@) =~= before + seq![n@]);
            } else {
                assert(string_views(names@) =~= before + Seq::<Seq<char>>::empty());
            }
            i = i + 1;
        }
        assert(req.take(req.len() as int) =~= req);
        names
    }
}

} // verus!
