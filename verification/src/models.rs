//! The swarm's data: findings, tasks, agents, consensus results, request and
//! response bodies, and the messages exchanged with the Messages API.
//!
//! Confidences and rates are fixed-point fractions in millionths: a value of
//! `CONFIDENCE_SCALE` stands for 1.0.
use vstd::prelude::*;

use crate::ids::{new_id, now_millis};
use crate::text::{chars_of, string_of};

verus! {

/// The fixed-point unit of confidences and rates: 1.0 is one million.
pub const CONFIDENCE_SCALE: u32 = 1000000;

// ── Severity & Category ─────────────────────────────────────────────

/// How serious a finding is, from the most to the least serious.
#[derive(Debug, Clone, Copy, PartialEq, Eq, Structural, PartialOrd, Ord, Hash)]
pub enum Severity {
    Critical,
    High,
    Medium,
    Low,
    Info,
}

impl Severity {
    /// Position in the order Critical < High < Medium < Low < Info.
    pub open spec fn rank(self) -> nat {
        match self {
            Severity::Critical => 0,
            Severity::High => 1,
            Severity::Medium => 2,
            Severity::Low => 3,
            Severity::Info => 4,
        }
    }

    /// The position of this severity in the order of seriousness.
    pub fn level(&self) -> (r: u8)
        ensures
            r == self.rank(),
    {
        match self {
            Severity::Critical => 0,
            Severity::High => 1,
            Severity::Medium => 2,
            Severity::Low => 3,
            Severity::Info => 4,
        }
    }
}

/// Seriousness goes Critical, High, Medium, Low, Info, as the variants are
/// declared: each is ranked before the next.
pub proof fn law_severity_order()
    ensures
        Severity::Critical.rank() < Severity::High.rank(),
        Severity::High.rank() < Severity::Medium.rank(),
        Severity::Medium.rank() < Severity::Low.rank(),
        Severity::Low.rank() < Severity::Info.rank(),
{
}

/// What kind of problem a finding reports.
#[derive(Debug, Clone, Copy, PartialEq, Eq, Structural, Hash)]
pub enum FindingCategory {
    ErrorPattern,
    PerformanceDegradation,
    SecurityAnomaly,
    ServiceOutage,
    ResourceExhaustion,
    ConfigurationDrift,
    AnomalousBehavior,
    MetricSpike,
    MetricDrop,
    Trend,
}

// ── Finding ─────────────────────────────────────────────────────────

/// What a finding says, apart from its identity and time.
pub struct FindingContent {
    pub severity: Severity,
    pub category: FindingCategory,
    pub description: Seq<char>,
    pub evidence: Seq<char>,
    pub confidence: nat,
    pub agent_id: Seq<char>,
}

/// One observation made by an agent.
#[derive(Debug)]
pub struct Finding {
    pub id: String,
    pub severity: Severity,
    pub category: FindingCategory,
    pub description: String,
    pub evidence: String,
    /// In millionths, at most `CONFIDENCE_SCALE`.
    pub confidence: u32,
    pub agent_id: String,
    /// Milliseconds since the Unix epoch.
    pub timestamp: i64,
}

/// A confidence limited to at most 1.0.
pub open spec fn clamp_confidence(c: nat) -> nat {
    if c > CONFIDENCE_SCALE as nat {
        CONFIDENCE_SCALE as nat
    } else {
        c
    }
}

/// A confidence is limited to 1.0: one within [0, 1.0] is kept as it is,
/// a larger one becomes 1.0.
pub proof fn law_confidence_clamped(c: nat)
    ensures
        clamp_confidence(c) <= 1000000,
        c <= 1000000 ==> clamp_confidence(c) == c,
        c > 1000000 ==> clamp_confidence(c) == 1000000,
{
}

/// The content of a finding built from these parts.
pub open spec fn finding_content(
    severity: Severity,
    category: FindingCategory,
    description: Seq<char>,
    evidence: Seq<char>,
    confidence: nat,
    agent_id: Seq<char>,
) -> FindingContent {
    FindingContent {
        severity,
        category,
        description,
        evidence,
        confidence: clamp_confidence(confidence),
        agent_id,
    }
}

impl Finding {
    /// What the finding says.
    pub open spec fn content(&self) -> FindingContent {
        FindingContent {
            severity: self.severity,
            category: self.category,
            description: self.description@,
            evidence: self.evidence@,
            confidence: self.confidence as nat,
            agent_id: self.agent_id@,
        }
    }

    /// A new finding with a fresh id and the current time; the confidence is
    /// limited to 1.0.
    pub fn new(
        severity: Severity,
        category: FindingCategory,
        description: String,
        evidence: String,
        confidence: u32,
        agent_id: String,
    ) -> (f: Self)
        ensures
            f.content() == finding_content(
                severity,
                category,
                description@,
                evidence@,
                confidence as nat,
                agent_id@,
            ),
            f.id@.len() == 36,
    {
        let c = if confidence > CONFIDENCE_SCALE {
            CONFIDENCE_SCALE
        } else {
            confidence
        };
        Finding {
            id: new_id(),
            severity,
            category,
            description,
            evidence,
            confidence: c,
            agent_id,
            timestamp: now_millis(),
        }
    }
}

impl View for Finding {
    type V = Finding;

    /// A finding is its own value: its strings compare by their characters.
    open spec fn view(&self) -> Finding {
        *self
    }
}

impl Clone for Finding {
    fn clone(&self) -> (res: Self)
        ensures
            res == *self,
    {
        Finding {
            id: self.id.clone(),
            severity: self.severity,
            category: self.category,
            description: self.description.clone(),
            evidence: self.evidence.clone(),
            confidence: self.confidence,
            agent_id: self.agent_id.clone(),
            timestamp: self.timestamp,
        }
    }
}

/// The contents of a sequence of findings.
pub open spec fn contents(fs: Seq<Finding>) -> Seq<FindingContent> {
    fs.map_values(|f: Finding| f.content())
}

// ── Task types ──────────────────────────────────────────────────────

/// The kind of analysis a task asks for.
#[derive(Debug, Clone, Copy, PartialEq, Eq, Structural, Hash)]
pub enum TaskType {
    LogAnalysis,
    HealthCheck,
    Incident,
}

/// Where a task is in its life.
#[derive(Debug, Clone, Copy, PartialEq, Eq, Structural)]
pub enum TaskStatus {
    Pending,
    Running,
    Completed,
    Failed,
}

/// A unit of analysis work.
#[derive(Debug)]
pub struct SwarmTask {
    pub id: String,
    pub task_type: TaskType,
    pub data: String,
    pub requested_agents: Vec<String>,
    pub status: TaskStatus,
    pub findings: Vec<Finding>,
    /// Milliseconds since the Unix epoch.
    pub created_at: i64,
    pub completed_at: Option<i64>,
}

/// A task as a value: its strings by their characters.
pub struct TaskView {
    pub id: Seq<char>,
    pub task_type: TaskType,
    pub data: Seq<char>,
    pub requested_agents: Seq<Seq<char>>,
    pub status: TaskStatus,
    pub findings: Seq<Finding>,
    pub created_at: i64,
    pub completed_at: Option<i64>,
}

/// The characters of each string.
pub open spec fn string_views(v: Seq<String>) -> Seq<Seq<char>> {
    v.map_values(|s: String| s@)
}

impl View for SwarmTask {
    type V = TaskView;

    open spec fn view(&self) -> TaskView {
        TaskView {
            id: self.id@,
            task_type: self.task_type,
            data: self.data@,
            requested_agents: string_views(self.requested_agents@),
            status: self.status,
            findings: self.findings@,
            created_at: self.created_at,
            completed_at: self.completed_at,
        }
    }
}

impl SwarmTask {
    /// A pending task with a fresh id, no findings, created now.
    pub fn new(task_type: TaskType, data: String, requested_agents: Vec<String>) -> (t: Self)
        ensures
            t.task_type == task_type,
            t.data@ == data@,
            t@.requested_agents == string_views(requested_agents@),
            t.status == TaskStatus::Pending,
            t.findings@.len() == 0,
            t.completed_at.is_none(),
            t.id@.len() == 36,
    {
        SwarmTask {
            id: new_id(),
            task_type,
            data,
            requested_agents,
            status: TaskStatus::Pending,
            findings: Vec::new(),
            created_at: now_millis(),
            completed_at: None,
        }
    }
}

impl Clone for SwarmTask {
    fn clone(&self) -> (res: Self)
        ensures
            res@ == self@,
    {
        let requested_agents = self.requested_agents.clone();
        let findings = self.findings.clone();
        assert(requested_agents@ =~= self.requested_agents@);
        assert(findings@ =~= self.findings@);
        SwarmTask {
            id: self.id.clone(),
            task_type: self.task_type,
            data: self.data.clone(),
            requested_agents,
            status: self.status,
            findings,
            created_at: self.created_at,
            completed_at: self.completed_at,
        }
    }
}

// ── Agent configuration ─────────────────────────────────────────────

/// An agent registered through the API.
#[derive(Debug)]
pub struct AgentConfig {
    pub id: String,
    pub name: String,
    pub agent_type: String,
    pub capabilities: Vec<String>,
    pub enabled: bool,
    /// Milliseconds since the Unix epoch.
    pub registered_at: i64,
}

/// An agent configuration as a value.
pub struct AgentView {
    pub id: Seq<char>,
    pub name: Seq<char>,
    pub agent_type: Seq<char>,
    pub capabilities: Seq<Seq<char>>,
    pub enabled: bool,
    pub registered_at: i64,
}

impl View for AgentConfig {
    type V = AgentView;

    open spec fn view(&self) -> AgentView {
        AgentView {
            id: self.id@,
            name: self.name@,
            agent_type: self.agent_type@,
            capabilities: string_views(self.capabilities@),
            enabled: self.enabled,
            registered_at: self.registered_at,
        }
    }
}

impl AgentConfig {
    /// An enabled agent with a fresh id, registered now.
    pub fn new(name: String, agent_type: String, capabilities: Vec<String>) -> (a: Self)
        ensures
            a.name@ == name@,
            a.agent_type@ == agent_type@,
            a@.capabilities == string_views(capabilities@),
            a.enabled,
            a.id@.len() == 36,
    {
        AgentConfig {
            id: new_id(),
            name,
            agent_type,
            capabilities,
            enabled: true,
            registered_at: now_millis(),
        }
    }
}

impl Clone for AgentConfig {
    fn clone(&self) -> (res: Self)
        ensures
            res@ == self@,
    {
        let capabilities = self.capabilities.clone();
        assert(capabilities@ =~= self.capabilities@);
        AgentConfig {
            id: self.id.clone(),
            name: self.name.clone(),
            agent_type: self.agent_type.clone(),
            capabilities,
            enabled: self.enabled,
            registered_at: self.registered_at,
        }
    }
}

// ── Consensus ───────────────────────────────────────────────────────

/// The outcome of one consensus run.
#[derive(Debug)]
pub struct ConsensusResult {
    pub id: String,
    pub merged_findings: Vec<Finding>,
    /// The share of input findings merged into others, in millionths.
    pub agreement_rate: u32,
    pub total_input_findings: usize,
    pub total_merged_findings: usize,
    /// Milliseconds since the Unix epoch.
    pub created_at: i64,
}

/// A consensus result as a value.
pub struct ConsensusView {
    pub id: Seq<char>,
    pub merged_findings: Seq<Finding>,
    pub agreement_rate: u32,
    pub total_input_findings: usize,
    pub total_merged_findings: usize,
    pub created_at: i64,
}

impl View for ConsensusResult {
    type V = ConsensusView;

    open spec fn view(&self) -> ConsensusView {
        ConsensusView {
            id: self.id@,
            merged_findings: self.merged_findings@,
            agreement_rate: self.agreement_rate,
            total_input_findings: self.total_input_findings,
            total_merged_findings: self.total_merged_findings,
            created_at: self.created_at,
        }
    }
}

impl Clone for ConsensusResult {
    fn clone(&self) -> (res: Self)
        ensures
            res@ == self@,
    {
        let merged_findings = self.merged_findings.clone();
        assert(merged_findings@ =~= self.merged_findings@);
        ConsensusResult {
            id: self.id.clone(),
            merged_findings,
            agreement_rate: self.agreement_rate,
            total_input_findings: self.total_input_findings,
            total_merged_findings: self.total_merged_findings,
            created_at: self.created_at,
        }
    }
}

// ── Swarm statistics ────────────────────────────────────────────────

/// Totals over the swarm's state.
#[derive(Debug)]
pub struct SwarmStats {
    pub total_tasks: usize,
    pub total_agents: usize,
    pub total_findings: usize,
    /// The mean agreement rate of all consensus runs, in millionths.
    pub consensus_rate: u32,
    /// For each task status that some task has, its name and how many tasks
    /// have it, in the order pending, running, completed, failed.
    pub tasks_by_status: Vec<(String, usize)>,
}

// ── API request / response bodies ───────────────────────────────────

/// Body of `POST /swarm/analyze`.
#[derive(Debug)]
pub struct AnalyzeRequest {
    pub data: String,
    pub task_type: TaskType,
    pub agents: Vec<String>,
}

/// Body of `POST /swarm/agents`.
#[derive(Debug)]
pub struct RegisterAgentRequest {
    pub name: String,
    pub agent_type: String,
    pub capabilities: Vec<String>,
}

/// Body of `POST /swarm/consensus`.
#[derive(Debug)]
pub struct ConsensusRequest {
    pub finding_ids: Vec<String>,
}

/// A successful response carrying `data`.
#[derive(Debug)]
pub struct ApiResponse<T> {
    pub success: bool,
    pub data: T,
}

impl<T> ApiResponse<T> {
    /// A successful response around `data`.
    pub fn ok(data: T) -> (r: Self)
        ensures
            r.success,
            r.data == data,
    {
        ApiResponse { success: true, data }
    }
}

/// A failed response with a message.
#[derive(Debug)]
pub struct ErrorResponse {
    pub success: bool,
    pub error: String,
}

impl ErrorResponse {
    /// A failure response with the message `error`.
    pub fn new(error: &str) -> (r: Self)
        ensures
            !r.success,
            r.error@ == error@,
    {
        let v = chars_of(error);
        ErrorResponse { success: false, error: string_of(&v) }
    }
}

// ── Agent errors ────────────────────────────────────────────────────

/// Why an agent or the model client could not deliver.
#[derive(Debug)]
pub enum AgentError {
    AnalysisFailed(String),
    ClaudeApiError(String),
    InvalidInput(String),
}

impl AgentError {
    /// The human-readable message: a prefix naming the kind, then the detail.
    pub open spec fn message_spec(&self) -> Seq<char> {
        match self {
            AgentError::AnalysisFailed(m) => "Analysis failed: "@ + m@,
            AgentError::ClaudeApiError(m) => "Model API error: "@ + m@,
            AgentError::InvalidInput(m) => "Invalid input: "@ + m@,
        }
    }

    /// The human-readable message of this error.
    pub fn message(&self) -> (s: String)
        ensures
            s@ == self.message_spec(),
    {
        let (prefix, detail) = match self {
            AgentError::AnalysisFailed(m) => ("Analysis failed: ", m),
            AgentError::ClaudeApiError(m) => ("Model API error: ", m),
            AgentError::InvalidInput(m) => ("Invalid input: ", m),
        };
        let mut v = chars_of(prefix);
        let d = chars_of(detail.as_str());
        v.extend_from_slice(&d);
        string_of(&v)
    }
}

// ── Messages API types ──────────────────────────────────────────────

/// The token limit of every request.
pub const MAX_TOKENS: u32 = 4096;

/// One message of a conversation.
#[derive(Debug)]
pub struct ClaudeMessage {
    pub role: String,
    pub content: String,
}

/// A request to the Messages API.
#[derive(Debug)]
pub struct ClaudeRequest {
    pub model: String,
    pub max_tokens: u32,
    pub messages: Vec<ClaudeMessage>,
}

impl ClaudeRequest {
    /// The request sent for one prompt: a single user message holding the
    /// system prompt, a blank line, and the user message.
    pub fn for_prompt(model: &str, system_prompt: &str, user_message: &str) -> (r: Self)
        ensures
            r.model@ == model@,
            r.max_tokens == MAX_TOKENS,
            r.messages@.len() == 1,
            r.messages@[0].role@ == "user"@,
            r.messages@[0].content@ == system_prompt@ + "\n\n"@ + user_message@,
    {
        let mut content = chars_of(system_prompt);
        let sep = chars_of("\n\n");
        let user = chars_of(user_message);
        content.extend_from_slice(&sep);
        content.extend_from_slice(&user);
        let role = chars_of("user");
        let model_chars = chars_of(model);
        let mut messages = Vec::new();
        messages.push(ClaudeMessage { role: string_of(&role), content: string_of(&content) });
        ClaudeRequest { model: string_of(&model_chars), max_tokens: MAX_TOKENS, messages }
    }
}

/// One block of a response's content.
#[derive(Debug)]
pub struct ClaudeContentBlock {
    pub block_type: String,
    pub text: Option<String>,
}

/// A response of the Messages API.
#[derive(Debug)]
pub struct ClaudeResponse {
    pub id: String,
    pub content: Vec<ClaudeContentBlock>,
}

/// The text of the blocks that carry text, concatenated in order.
pub open spec fn blocks_text(blocks: Seq<ClaudeContentBlock>) -> Seq<char>
    decreases blocks.len(),
{
    if blocks.len() == 0 {
        Seq::empty()
    } else {
        blocks_text(blocks.drop_last()) + match blocks.last().text {
            Some(t) => t@,
            None => Seq::empty(),
        }
    }
}

impl ClaudeResponse {
    /// All text of the response: the texts of its blocks, in order, with
    /// nothing between them.
    pub fn text(&self) -> (s: String)
        ensures
            s@ == blocks_text(self.content@),
    {
        let mut out: Vec<char> = Vec::new();
        let mut i: usize = 0;
        while i < self.content.len()
            invariant
                i <= self.content.len(),
                out@ == blocks_text(self.content@.take(i as int)),
            decreases self.content.len() - i,
        {
            assert(self.content@.take(i + 1).drop_last() =~= self.content@.take(i as int));
            match &self.content[i].text {
                Some(t) => {
                    let c = chars_of(t.as_str());
                    out.extend_from_slice(&c);
                },
                None => {
                    assert(out@ =~= out@ + Seq::<char>::empty());
                },
            }
            i = i + 1;
        }
        assert(self.content@.take(self.content.len() as int) =~= self.content@);
        string_of(&out)
    }
}

} // verus!
