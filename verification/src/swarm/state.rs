//! The swarm's state: tasks, agents, findings and consensus results, each
//! kept by id. Storing a record under an id that is already present
//! replaces the stored one.
use vstd::prelude::*;

use crate::models::{
    AgentConfig, AgentView, ConsensusResult, ConsensusView, Finding, SwarmTask, TaskView,
};
use crate::agents::owned;

verus! {

/// A value stored by its id.
pub trait Record: View + Sized {
    /// The id of a stored value.
    spec fn record_key(v: Self::V) -> Seq<char>;

    /// The id of this record.
    fn key(&self) -> (k: &String)
        ensures
            k@ == Self::record_key(self@),
    ;

    /// A copy of this record.
    fn duplicate(&self) -> (c: Self)
        ensures
            c@ == self@,
    ;
}

impl Record for SwarmTask {
    open spec fn record_key(v: TaskView) -> Seq<char> {
        v.id
    }

    fn key(&self) -> (k: &String) {
        &self.id
    }

    fn duplicate(&self) -> (c: Self) {
        self.clone()
    }
}

impl Record for AgentConfig {
    open spec fn record_key(v: AgentView) -> Seq<char> {
        v.id
    }

    fn key(&self) -> (k: &String) {
        &self.id
    }

    fn duplicate(&self) -> (c: Self) {
        self.clone()
    }
}

impl Record for Finding {
    open spec fn record_key(v: Finding) -> Seq<char> {
        v.id@
    }

    fn key(&self) -> (k: &String) {
        &self.id
    }

    fn duplicate(&self) -> (c: Self) {
        self.clone()
    }
}

impl Record for ConsensusResult {
    open spec fn record_key(v: ConsensusView) -> Seq<char> {
        v.id
    }

    fn key(&self) -> (k: &String) {
        &self.id
    }

    fn duplicate(&self) -> (c: Self) {
        self.clone()
    }
}

/// No two values share an id.
pub open spec fn keys_unique<T: Record>(s: Seq<T::V>) -> bool {
    forall|i: int, j: int| 0 <= i < s.len() && 0 <= j < s.len() && i != j
        ==> T::record_key(#[trigger] s[i]) != T::record_key(#[trigger] s[j])
}

/// Some value has the id `k`.
pub open spec fn holds_key<T: Record>(s: Seq<T::V>, k: Seq<char>) -> bool {
    exists|i: int| 0 <= i < s.len() && T::record_key(#[trigger] s[i]) == k
}

/// The position of the value with id `k`.
pub open spec fn key_position<T: Record>(s: Seq<T::V>, k: Seq<char>) -> int {
    choose|i: int| 0 <= i < s.len() && T::record_key(#[trigger] s[i]) == k
}

/// The value with id `k`, if any.
pub open spec fn lookup<T: Record>(s: Seq<T::V>, k: Seq<char>) -> Option<T::V> {
    if holds_key::<T>(s, k) {
        Some(s[key_position::<T>(s, k)])
    } else {
        None
    }
}

/// `v` stored: in place of the value with its id, or at the end.
pub open spec fn upsert<T: Record>(s: Seq<T::V>, v: T::V) -> Seq<T::V> {
    if holds_key::<T>(s, T::record_key(v)) {
        s.update(key_position::<T>(s, T::record_key(v)), v)
    } else {
        s.push(v)
    }
}

/// With unique ids, a known position of an id is the position.
pub proof fn lemma_key_position<T: Record>(s: Seq<T::V>, k: Seq<char>, i: int)
    requires
        keys_unique::<T>(s),
        0 <= i < s.len(),
        T::record_key(s[i]) == k,
    ensures
        holds_key::<T>(s, k),
        key_position::<T>(s, k) == i,
{
    assert(T::record_key(s[i]) == k);
    let p = key_position::<T>(s, k);
    assert(0 <= p < s.len() && T::record_key(s[p]) == k);
}

/// What is read back is what was last written under that id; writes leave
/// other ids alone, and ids stay unique.
pub proof fn law_lookup_after_upsert<T: Record>(s: Seq<T::V>, v: T::V, k: Seq<char>)
    requires
        keys_unique::<T>(s),
    ensures
        keys_unique::<T>(upsert::<T>(s, v)),
        lookup::<T>(upsert::<T>(s, v), T::record_key(v)) == Some(v),
        k != T::record_key(v) ==> lookup::<T>(upsert::<T>(s, v), k) == lookup::<T>(s, k),
        upsert::<T>(s, v).len() == s.len() + if holds_key::<T>(s, T::record_key(v)) { 0int } else { 1int },
{
    let kv = T::record_key(v);
    let r = upsert::<T>(s, v);
    if holds_key::<T>(s, kv) {
        let p = key_position::<T>(s, kv);
        assert(0 <= p < s.len() && T::record_key(s[p]) == kv);
        assert forall|i: int, j: int| 0 <= i < r.len() && 0 <= j < r.len() && i != j
            implies T::record_key(#[trigger] r[i]) != T::record_key(#[trigger] r[j]) by {
            if i == p {
                assert(T::record_key(s[j]) != T::record_key(s[p]));
            } else if j == p {
                assert(T::record_key(s[i]) != T::record_key(s[p]));
            } else {
                assert(r[i] == s[i] && r[j] == s[j]);
            }
        }
        lemma_key_position::<T>(r, kv, p);
        if k != kv {
            if holds_key::<T>(s, k) {
                let q = key_position::<T>(s, k);
                assert(0 <= q < s.len() && T::record_key(s[q]) == k);
                assert(q != p);
                lemma_key_position::<T>(r, k, q);
            } else {
                if holds_key::<T>(r, k) {
                    let q = choose|q: int| 0 <= q < r.len() && T::record_key(#[trigger] r[q]) == k;
                    assert(q != p);
                    assert(r[q] == s[q]);
                }
            }
        }
    } else {
        assert forall|i: int, j: int| 0 <= i < r.len() && 0 <= j < r.len() && i != j
            implies T::record_key(#[trigger] r[i]) != T::record_key(#[trigger] r[j]) by {
            if i == s.len() {
                assert(!(0 <= j < s.len() && T::record_key(s[j]) == kv));
            } else if j == s.len() {
                assert(!(0 <= i < s.len() && T::record_key(s[i]) == kv));
            } else {
                assert(r[i] == s[i] && r[j] == s[j]);
            }
        }
        lemma_key_position::<T>(r, kv, s.len() as int);
        if k != kv {
            if holds_key::<T>(s, k) {
                let q = key_position::<T>(s, k);
                assert(0 <= q < s.len() && T::record_key(s[q]) == k);
                lemma_key_position::<T>(r, k, q);
            } else {
                if holds_key::<T>(r, k) {
                    let q = choose|q: int| 0 <= q < r.len() && T::record_key(#[trigger] r[q]) == k;
                    assert(r[q] == s[q]);
                }
            }
        }
    }
}

/// Records kept by id, in the order their ids were first stored.
///
/// The records are a vector with the invariant that no two share an id, not
/// a `HashMap` or `BTreeMap` keyed by the id: the id is a `String`, and
/// vstd's specifications of those maps say nothing unless the key type obeys
/// their key model (hashing, or ordering), which vstd states only for
/// integers, `bool` and boxes of them. Records come out in the order their
/// ids were first stored.
pub struct Table<T: Record> {
    rows: Vec<T>,
}

impl<T: Record> View for Table<T> {
    type V = Seq<T::V>;

    closed spec fn view(&self) -> Seq<T::V> {
        self.rows@.map_values(|r: T| r@)
    }
}

impl<T: Record> Table<T> {
    #[verifier::type_invariant]
    spec fn inv(&self) -> bool {
        keys_unique::<T>(self.rows@.map_values(|r: T| r@))
    }

    /// An empty table.
    pub fn new() -> (t: Self)
        ensures
            t@.len() == 0,
            keys_unique::<T>(t@),
    {
        let t = Table { rows: Vec::new() };
        assert(t.rows@.map_values(|r: T| r@) =~= Seq::<T::V>::empty());
        t
    }

    /// The number of records.
    pub fn len(&self) -> (n: usize)
        ensures
            n == self@.len(),
            keys_unique::<T>(self@),
    {
        proof {
            use_type_invariant(self);
        }
        self.rows.len()
    }

    /// The position of the record with id `key`, if any.
    fn position(&self, key: &String) -> (p: Option<usize>)
        ensures
            p.is_some() == holds_key::<T>(self@, key@),
            p matches Some(i) ==> i < self@.len() && key_position::<T>(self@, key@) == i,
    {
        proof {
            use_type_invariant(self);
        }
        let ghost v = self.rows@.map_values(|r: T| r@);
        let mut i: usize = 0;
        while i < self.rows.len()
            invariant
                i <= self.rows@.len(),
                v == self.rows@.map_values(|r: T| r@),
                keys_unique::<T>(v),
                forall|j: int| 0 <= j < i ==> T::record_key(#[trigger] v[j]) != key@,
            decreases self.rows.len() - i,
        {
            if *self.rows[i].key() == *key {
                proof {
                    lemma_key_position::<T>(v, key@, i as int);
                }
                return Some(i);
            }
            i = i + 1;
        }
        None
    }

    /// Stores `item`, replacing the record with the same id if there is one.
    pub fn upsert(&mut self, item: T)
        ensures
            final(self)@ == upsert::<T>(old(self)@, item@),
            keys_unique::<T>(old(self)@),
            keys_unique::<T>(final(self)@),
            lookup::<T>(final(self)@, T::record_key(item@)) == Some(item@),
            forall|k: Seq<char>| k != T::record_key(item@)
                ==> #[trigger] lookup::<T>(final(self)@, k) == lookup::<T>(old(self)@, k),
    {
        proof {
            use_type_invariant(&*self);
        }
        proof {
            assert forall|k: Seq<char>| k != T::record_key(item@)
                implies #[trigger] lookup::<T>(upsert::<T>(self@, item@), k) == lookup::<T>(self@, k) by {
                law_lookup_after_upsert::<T>(self@, item@, k);
            }
        }
        let ghost old_v = self@;
        let ghost kv = T::record_key(item@);
        let key = owned(item.key().as_str());
        let pos = self.position(&key);
        let mut rows = Vec::new();
        std::mem::swap(&mut rows, &mut self.rows);
        proof {
            law_lookup_after_upsert::<T>(old_v, item@, kv);
        }
        match pos {
            Some(i) => {
                rows.set(i, item);
                assert(rows@.map_values(|r: T| r@) =~= upsert::<T>(old_v, item@));
            },
            None => {
                rows.push(item);
                assert(rows@.map_values(|r: T| r@) =~= upsert::<T>(old_v, item@));
            },
        }
        self.rows = rows;
    }

    /// A copy of the record with id `key`, if any.
    pub fn get(&self, key: &str) -> (r: Option<T>)
        ensures
            match r {
                Some(x) => lookup::<T>(self@, key@) == Some(x@),
                None => lookup::<T>(self@, key@).is_none(),
            },
            keys_unique::<T>(self@),
    {
        proof {
            use_type_invariant(self);
        }
        let k = owned(key);
        match self.position(&k) {
            Some(i) => Some(self.rows[i].duplicate()),
            None => None,
        }
    }

    /// Copies of all records, in order.
    pub fn values(&self) -> (r: Vec<T>)
        ensures
            r@.map_values(|x: T| x@) == self@,
            keys_unique::<T>(self@),
    {
        proof {
            use_type_invariant(self);
        }
        let ghost v = self@;
        let mut out: Vec<T> = Vec::new();
        let mut i: usize = 0;
        while i < self.rows.len()
            invariant
                i <= self.rows@.len(),
                v == self.rows@.map_values(|r: T| r@),
                out@.map_values(|x: T| x@) == v.take(i as int),
            decreases self.rows.len() - i,
        {
            let c = self.rows[i].duplicate();
            let ghost before = out@.map_values(|x: T| x@);
            out.push(c);
            assert(out@.map_values(|x: T| x@) =~= before.push(v[i as int]));
            assert(v.take(i + 1) =~= v.take(i as int).push(v[i as int]));
            i = i + 1;
        }
        assert(v.take(self.rows@.len() as int) =~= v);
        out
    }
}

/// The findings of `s` reported by agent `a`, in order.
pub open spec fn findings_of_agent(s: Seq<Finding>, a: Seq<char>) -> Seq<Finding>
    decreases s.len(),
{
    if s.len() == 0 {
        Seq::empty()
    } else {
        findings_of_agent(s.drop_last(), a) + if s.last().agent_id@ == a {
            seq![s.last()]
        } else {
            Seq::empty()
        }
    }
}

/// The stored findings with the given ids, in the order of the ids; ids of
/// no stored finding are skipped.
pub open spec fn findings_with_ids(s: Seq<Finding>, ids: Seq<Seq<char>>) -> Seq<Finding>
    decreases ids.len(),
{
    if ids.len() == 0 {
        Seq::empty()
    } else {
        findings_with_ids(s, ids.drop_last()) + match lookup::<Finding>(s, ids.last()) {
            Some(f) => seq![f],
            None => Seq::empty(),
        }
    }
}

/// Looking findings up by ids gives, in the order of the ids, the stored
/// finding of each id that has one: never more findings than ids, each one
/// stored under an id asked for, and exactly one per id when every id is
/// stored.
pub proof fn law_findings_with_ids(s: Seq<Finding>, ids: Seq<Seq<char>>)
    ensures
        findings_with_ids(s, ids).len() <= ids.len(),
        forall|i: int| 0 <= i < findings_with_ids(s, ids).len() ==> exists|j: int|
            0 <= j < ids.len() && ids[j] == (#[trigger] findings_with_ids(s, ids)[i]).id@
                && lookup::<Finding>(s, ids[j]) == Some(findings_with_ids(s, ids)[i]),
        (forall|j: int| 0 <= j < ids.len() ==> holds_key::<Finding>(s, #[trigger] ids[j])) ==> {
            &&& findings_with_ids(s, ids).len() == ids.len()
            &&& forall|j: int| 0 <= j < ids.len()
                ==> lookup::<Finding>(s, ids[j]) == Some(#[trigger] findings_with_ids(s, ids)[j])
        },
    decreases ids.len(),
{
    if ids.len() > 0 {
        let init = ids.drop_last();
        let k = ids.last();
        law_findings_with_ids(s, init);
        let r0 = findings_with_ids(s, init);
        let r = findings_with_ids(s, ids);
        assert forall|i: int| 0 <= i < r.len() implies exists|j: int|
            0 <= j < ids.len() && ids[j] == (#[trigger] r[i]).id@ && lookup::<Finding>(s, ids[j]) == Some(r[i]) by {
            if i < r0.len() {
                assert(r[i] == r0[i]);
                let j = choose|j: int| 0 <= j < init.len() && init[j] == r0[i].id@ && lookup::<Finding>(s, init[j]) == Some(r0[i]);
                assert(ids[j] == init[j]);
            } else {
                let p = key_position::<Finding>(s, k);
                assert(lookup::<Finding>(s, k) == Some(r[i]));
                assert(ids[ids.len() - 1] == k);
            }
        }
        if forall|j: int| 0 <= j < ids.len() ==> holds_key::<Finding>(s, #[trigger] ids[j]) {
            assert forall|j: int| 0 <= j < init.len() implies holds_key::<Finding>(s, #[trigger] init[j]) by {
                assert(init[j] == ids[j]);
            }
            assert(holds_key::<Finding>(s, ids[ids.len() - 1]));
            assert forall|j: int| 0 <= j < ids.len()
                implies lookup::<Finding>(s, ids[j]) == Some(#[trigger] r[j]) by {
                if j < init.len() {
                    assert(ids[j] == init[j]);
                    assert(r[j] == r0[j]);
                }
            }
        }
    }
}

/// The whole state of the swarm.
pub struct SwarmState {
    pub tasks: Table<SwarmTask>,
    pub agents: Table<AgentConfig>,
    pub findings: Table<Finding>,
    pub consensus_results: Table<ConsensusResult>,
}

impl SwarmState {
    /// An empty state.
    pub fn new() -> (s: Self)
        ensures
            s.tasks@.len() == 0,
            s.agents@.len() == 0,
            s.findings@.len() == 0,
            s.consensus_results@.len() == 0,
    {
        SwarmState {
            tasks: Table::new(),
            agents: Table::new(),
            findings: Table::new(),
            consensus_results: Table::new(),
        }
    }

    /// Stores a task by its id.
    pub fn insert_task(&mut self, task: SwarmTask)
        ensures
            final(self).tasks@ == upsert::<SwarmTask>(old(self).tasks@, task@),
            keys_unique::<SwarmTask>(old(self).tasks@),
            keys_unique::<SwarmTask>(final(self).tasks@),
            lookup::<SwarmTask>(final(self).tasks@, task@.id) == Some(task@),
            forall|k: Seq<char>| k != task@.id
                ==> #[trigger] lookup::<SwarmTask>(final(self).tasks@, k) == lookup::<SwarmTask>(old(self).tasks@, k),
            final(self).agents@ == old(self).agents@,
            final(self).findings@ == old(self).findings@,
            final(self).consensus_results@ == old(self).consensus_results@,
    {
        self.tasks.upsert(task);
    }

    /// A copy of the task with this id, if any.
    pub fn get_task(&self, id: &str) -> (r: Option<SwarmTask>)
        ensures
            match r {
                Some(t) => lookup::<SwarmTask>(self.tasks@, id@) == Some(t@),
                None => lookup::<SwarmTask>(self.tasks@, id@).is_none(),
            },
            keys_unique::<SwarmTask>(self.tasks@),
    {
        self.tasks.get(id)
    }

    /// Copies of all tasks.
    pub fn list_tasks(&self) -> (r: Vec<SwarmTask>)
        ensures
            r@.map_values(|t: SwarmTask| t@) == self.tasks@,
            keys_unique::<SwarmTask>(self.tasks@),
    {
        self.tasks.values()
    }

    /// Stores a task by its id, replacing the stored one with that id.
    pub fn update_task(&mut self, task: SwarmTask)
        ensures
            final(self).tasks@ == upsert::<SwarmTask>(old(self).tasks@, task@),
            keys_unique::<SwarmTask>(old(self).tasks@),
            keys_unique::<SwarmTask>(final(self).tasks@),
            lookup::<SwarmTask>(final(self).tasks@, task@.id) == Some(task@),
            forall|k: Seq<char>| k != task@.id
                ==> #[trigger] lookup::<SwarmTask>(final(self).tasks@, k) == lookup::<SwarmTask>(old(self).tasks@, k),
            final(self).agents@ == old(self).agents@,
            final(self).findings@ == old(self).findings@,
            final(self).consensus_results@ == old(self).consensus_results@,
    {
        self.tasks.upsert(task);
    }

    /// Stores an agent configuration by its id.
    pub fn register_agent(&mut self, config: AgentConfig)
        ensures
            final(self).agents@ == upsert::<AgentConfig>(old(self).agents@, config@),
            keys_unique::<AgentConfig>(old(self).agents@),
            keys_unique::<AgentConfig>(final(self).agents@),
            lookup::<AgentConfig>(final(self).agents@, config@.id) == Some(config@),
            forall|k: Seq<char>| k != config@.id
                ==> #[trigger] lookup::<AgentConfig>(final(self).agents@, k) == lookup::<AgentConfig>(old(self).agents@, k),
            final(self).tasks@ == old(self).tasks@,
            final(self).findings@ == old(self).findings@,
            final(self).consensus_results@ == old(self).consensus_results@,
    {
        self.agents.upsert(config);
    }

    /// Copies of all agent configurations.
    pub fn list_agents(&self) -> (r: Vec<AgentConfig>)
        ensures
            r@.map_values(|a: AgentConfig| a@) == self.agents@,
            keys_unique::<AgentConfig>(self.agents@),
    {
        self.agents.values()
    }

    /// A copy of the agent configuration with this id, if any.
    pub fn get_agent(&self, id: &str) -> (r: Option<AgentConfig>)
        ensures
            match r {
                Some(a) => lookup::<AgentConfig>(self.agents@, id@) == Some(a@),
                None => lookup::<AgentConfig>(self.agents@, id@).is_none(),
            },
            keys_unique::<AgentConfig>(self.agents@),
    {
        self.agents.get(id)
    }

    /// Stores a finding by its id.
    pub fn insert_finding(&mut self, finding: Finding)
        ensures
            final(self).findings@ == upsert::<Finding>(old(self).findings@, finding@),
            keys_unique::<Finding>(old(self).findings@),
            keys_unique::<Finding>(final(self).findings@),
            lookup::<Finding>(final(self).findings@, finding.id@) == Some(finding@),
            forall|k: Seq<char>| k != finding.id@
                ==> #[trigger] lookup::<Finding>(final(self).findings@, k) == lookup::<Finding>(old(self).findings@, k),
            final(self).tasks@ == old(self).tasks@,
            final(self).agents@ == old(self).agents@,
            final(self).consensus_results@ == old(self).consensus_results@,
    {
        self.findings.upsert(finding);
    }

    /// Copies of the findings reported by one agent.
    pub fn get_findings_by_agent(&self, agent_id: &str) -> (r: Vec<Finding>)
        ensures
            r@ == findings_of_agent(self.findings@, agent_id@),
            keys_unique::<Finding>(self.findings@),
    {
        let all = self.findings.values();
        assert(all@.map_values(|x: Finding| x@) =~= all@);
        let a = owned(agent_id);
        let mut out: Vec<Finding> = Vec::new();
        let mut i: usize = 0;
        while i < all.len()
            invariant
                i <= all@.len(),
                a@ == agent_id@,
                out@ == findings_of_agent(all@.take(i as int), a@),
            decreases all.len() - i,
        {
            let ghost before = out@;
            assert(all@.take(i + 1).drop_last() =~= all@.take(i as int));
            assert(all@.take(i + 1).last() == all@[i as int]);
            if all[i].agent_id == a {
                out.push(all[i].clone());
                assert(out@ =~= before + seq![all@[i as int]]);
            } else {
                assert(out@ =~= before + Seq::<Finding>::empty());
            }
            i = i + 1;
        }
        assert(all@.take(all@.len() as int) =~= all@);
        out
    }

    /// Copies of the stored findings with the given ids, in the order of the
    /// ids; unknown ids are skipped.
    pub fn get_findings_by_ids(&self, ids: &[String]) -> (r: Vec<Finding>)
        ensures
            r@ == findings_with_ids(self.findings@, ids@.map_values(|s: String| s@)),
            keys_unique::<Finding>(self.findings@),
    {
        // The table's ids are unique whether or not an id is looked up.
        let _stored: usize = self.findings.len();
        let ghost iv = ids@.map_values(|s: String| s@);
        let mut out: Vec<Finding> = Vec::new();
        let mut i: usize = 0;
        while i < ids.len()
            invariant
                i <= ids@.len(),
                iv == ids@.map_values(|s: String| s@),
                out@ == findings_with_ids(self.findings@, iv.take(i as int)),
            decreases ids.len() - i,
        {
            let ghost before = out@;
            assert(iv.take(i + 1).drop_last() =~= iv.take(i as int));
            assert(iv.take(i + 1).last() == ids@[i as int]@);
            match self.findings.get(ids[i].as_str()) {
                Some(f) => {
                    out.push(f);
                    assert(out@ =~= before + seq![f]);
                },
                None => {
                    assert(out@ =~= before + Seq::<Finding>::empty());
                },
            }
            i = i + 1;
        }
        assert(iv.take(ids@.len() as int) =~= iv);
        out
    }

    /// Copies of all findings.
    pub fn list_findings(&self) -> (r: Vec<Finding>)
        ensures
            r@ == self.findings@,
            keys_unique::<Finding>(self.findings@),
    {
        let r = self.findings.values();
        assert(r@.map_values(|x: Finding| x@) =~= r@);
        r
    }

    /// Stores a consensus result by its id.
    pub fn insert_consensus(&mut self, result: ConsensusResult)
        ensures
            final(self).consensus_results@ == upsert::<ConsensusResult>(old(self).consensus_results@, result@),
            keys_unique::<ConsensusResult>(old(self).consensus_results@),
            keys_unique::<ConsensusResult>(final(self).consensus_results@),
            lookup::<ConsensusResult>(final(self).consensus_results@, result@.id) == Some(result@),
            forall|k: Seq<char>| k != result@.id
                ==> #[trigger] lookup::<ConsensusResult>(final(self).consensus_results@, k) == lookup::<ConsensusResult>(old(self).consensus_results@, k),
            final(self).tasks@ == old(self).tasks@,
            final(self).agents@ == old(self).agents@,
            final(self).findings@ == old(self).findings@,
    {
        self.consensus_results.upsert(result);
    }

    /// Copies of all consensus results.
    pub fn list_consensus(&self) -> (r: Vec<ConsensusResult>)
        ensures
            r@.map_values(|c: ConsensusResult| c@) == self.consensus_results@,
            keys_unique::<ConsensusResult>(self.consensus_results@),
    {
        self.consensus_results.values()
    }
}

impl Default for SwarmState {
    fn default() -> (s: Self)
        ensures
            s.tasks@.len() == 0,
            s.agents@.len() == 0,
            s.findings@.len() == 0,
            s.consensus_results@.len() == 0,
    {
        SwarmState::new()
    }
}

} // verus!
