//! What the dashboard knows of a session.
//!
//! Amounts of money are in billionths of a dollar, loads in tenths of a percent
//! and times in milliseconds, so that everything here compares exactly.

use vstd::prelude::*;

use crate::text::{cat, same};

verus! {

/// Which agent a session belongs to.
#[derive(Debug, Clone, Copy, PartialEq, Eq, Structural)]
pub enum Provider {
    Claude,
    Codex,
    Cursor,
    Gemini,
    OpenCode,
    Pi,
    Windsurf,
}

/// What the agent whose accounts are counted and added goes by. It is the
/// caller's to say, as its directories are.
pub struct Names {
    /// Its command, which also begins the names of its sessions and models.
    pub command: String,
    pub title: String,
    /// The file its instructions are in.
    pub file: String,
}

impl Clone for Names {
    fn clone(&self) -> (r: Self)
        ensures
            r == *self,
    {
        Names { command: self.command.clone(), title: self.title.clone(), file: self.file.clone() }
    }
}

/// Where an agent shows itself.
#[derive(Debug, Clone, Copy, PartialEq, Eq, Structural)]
pub enum Surface {
    Cli,
    Editor,
    DesktopCode,
    DesktopCowork,
}

/// What the user pays for.
#[derive(Debug, Clone, Copy, PartialEq, Eq, Structural)]
pub enum Plan {
    /// Per token, at published rates.
    Retail,
    /// A subscription that bundles one agent's tokens.
    Max,
}

impl Plan {
    /// Whether the plan bundles what `provider` spends.
    pub open spec fn bundles(self, provider: Provider) -> bool {
        self == Plan::Max && provider == Provider::Claude
    }

    /// Whether the plan bundles what `provider` spends.
    pub fn includes(self, provider: Provider) -> (r: bool)
        ensures
            r == self.bundles(provider),
    {
        self == Plan::Max && provider == Provider::Claude
    }

    /// The plan's name.
    pub open spec fn word(self) -> Seq<char> {
        match self {
            Plan::Retail => "retail"@,
            Plan::Max => "max"@,
        }
    }

    /// The plan's name.
    pub fn as_str(self) -> (r: &'static str)
        ensures
            r@ == self.word(),
    {
        match self {
            Plan::Retail => "retail",
            Plan::Max => "max",
        }
    }
}

/// What an agent is doing, as its status dot shows it.
#[derive(Debug, Clone, Copy, PartialEq, Eq, Structural)]
pub enum ActivityState {
    Working,
    WaitingForInput,
    Asking,
    ApiError,
}

/// Whether a subagent is still at it.
#[derive(Debug, Clone, Copy, PartialEq, Eq, Structural)]
pub enum SubagentStatus {
    Running,
    Done,
}

/// How two live agents overlap.
#[derive(Debug, Clone, Copy, PartialEq, Eq, Structural)]
pub enum Overlap {
    /// They share a repository.
    Directory,
    /// They have written the same file.
    File,
}

/// How full a context window is.
#[derive(Debug, Clone, Copy, PartialEq, Eq, Structural)]
pub struct ContextUsage {
    pub used: u64,
    pub max: u64,
    /// How many tokens the harness lets in before it compacts.
    pub compact_at: u64,
    /// A compaction has replaced the window that was measured.
    pub compacted: bool,
}

/// A subagent a session ran.
pub struct Subagent {
    pub agent_id: String,
    pub agent_type: String,
    pub description: String,
    pub model: String,
    pub started_at: Option<String>,
    pub last_active: Option<String>,
    pub duration_ms: u64,
    pub status: SubagentStatus,
    pub cost: u64,
    pub tool_count: u64,
    pub context: Option<ContextUsage>,
    /// The transcript was purged, so nothing is known of what it did.
    pub purged: bool,
}

impl Clone for Subagent {
    fn clone(&self) -> (r: Self)
        ensures
            r == *self,
    {
        Subagent {
            agent_id: self.agent_id.clone(),
            agent_type: self.agent_type.clone(),
            description: self.description.clone(),
            model: self.model.clone(),
            started_at: copy_text(&self.started_at),
            last_active: copy_text(&self.last_active),
            duration_ms: self.duration_ms,
            status: self.status,
            cost: self.cost,
            tool_count: self.tool_count,
            context: self.context,
            purged: self.purged,
        }
    }
}

/// A text that may be missing, copied.
pub fn copy_text(t: &Option<String>) -> (r: Option<String>)
    ensures
        r == *t,
{
    match t {
        Some(s) => Some(s.clone()),
        None => None,
    }
}

/// How another machine's build stands against this one.
pub enum Skew {
    /// That machine is behind, at this version.
    Older(String),
    /// That machine is ahead, at this version.
    Newer(String),
    /// There is none where ssh looks.
    Missing,
}

impl Clone for Skew {
    fn clone(&self) -> (r: Self)
        ensures
            r == *self,
    {
        match self {
            Skew::Older(v) => Skew::Older(v.clone()),
            Skew::Newer(v) => Skew::Newer(v.clone()),
            Skew::Missing => Skew::Missing,
        }
    }
}

/// What makes a row another machine's.
pub struct Remote {
    pub host: String,
    pub branch: Option<String>,
    pub skew: Option<Skew>,
}

impl Clone for Remote {
    fn clone(&self) -> (r: Self)
        ensures
            r == *self,
    {
        let skew = match &self.skew {
            Some(s) => Some(s.clone()),
            None => None,
        };
        Remote { host: self.host.clone(), branch: copy_text(&self.branch), skew }
    }
}

/// One process of an agent's tree.
pub struct Proc {
    pub pid: u32,
    /// Load, in tenths of a percent.
    pub cpu: u64,
    pub memory: u64,
    pub args: String,
    /// Exited a moment ago.
    pub gone: bool,
    pub is_root: bool,
}

impl Clone for Proc {
    fn clone(&self) -> (r: Self)
        ensures
            r == *self,
    {
        Proc {
            pid: self.pid,
            cpu: self.cpu,
            memory: self.memory,
            args: self.args.clone(),
            gone: self.gone,
            is_root: self.is_root,
        }
    }
}

/// A live agent's process tree.
pub struct Process {
    pub pid: u32,
    pub command: String,
    /// The load of the tree, in tenths of a percent.
    pub cpu: u64,
    /// What the tree holds, in bytes.
    pub memory: u64,
    /// How many processes there are.
    pub pids: usize,
    pub list: Vec<Proc>,
}

/// A session of an agent.
pub struct Session {
    pub provider: Provider,
    /// The agent's command.
    pub agent: String,
    pub surface: Surface,
    /// The surface in words.
    pub type_label: String,
    pub session_id: String,
    pub model: String,
    pub title: Option<String>,
    pub harness: String,
    /// The directory the agent works in, which its row is named after.
    pub label_source: String,
    pub owner: Option<String>,
    pub started_at: String,
    pub last_active: String,
    pub data_file: Option<String>,
    /// The desktop application's own directory for this session.
    pub session_dir: Option<String>,
    pub remote: Option<Remote>,
    pub subagents: Vec<Subagent>,
    pub process: Option<Process>,
    pub inferred_running: bool,
    pub state: ActivityState,
    pub context: Option<ContextUsage>,
    pub cost_available: bool,
    pub cost_is_free: bool,
    pub total_cost: Option<u64>,
    pub cpu: u64,
    pub tool_count: u64,
    pub tool_errors: u64,
    pub conflict: Option<Overlap>,
    /// When it was last asked for `ultracode`.
    pub ultracode_at: Option<String>,
}

/// A session's identity across refreshes.
pub open spec fn key_of(s: Session) -> Seq<char> {
    s.agent@ + ":"@ + s.session_id@
}

/// Two processes' trees that say the same.
pub open spec fn alike_process(a: Option<Process>, b: Option<Process>) -> bool {
    match (a, b) {
        (Some(x), Some(y)) => x.list@ == y.list@ && x == (Process { list: x.list, ..y }),
        (None, None) => true,
        _ => false,
    }
}

/// Two sessions that say the same.
pub open spec fn alike(a: Session, b: Session) -> bool {
    &&& a.subagents@ == b.subagents@
    &&& alike_process(a.process, b.process)
    &&& a == (Session { subagents: a.subagents, process: a.process, ..b })
}

impl Session {
    /// A session of which only the agent, its command and the id are known.
    pub fn new(provider: Provider, agent: String, session_id: String) -> (r: Session)
        ensures
            r.provider == provider,
            r.agent == agent,
            r.session_id == session_id,
            r.surface == Surface::Cli,
            r.type_label@ == Seq::<char>::empty(),
            r.model@ == Seq::<char>::empty(),
            r.title is None,
            r.harness@ == Seq::<char>::empty(),
            r.label_source@ == Seq::<char>::empty(),
            r.owner is None,
            r.started_at@ == Seq::<char>::empty(),
            r.last_active@ == Seq::<char>::empty(),
            r.data_file is None,
            r.session_dir is None,
            r.remote is None,
            r.subagents@.len() == 0,
            r.process is None,
            !r.inferred_running,
            r.state == ActivityState::WaitingForInput,
            r.context is None,
            r.cost_available,
            !r.cost_is_free,
            r.total_cost is None,
            r.cpu == 0,
            r.tool_count == 0,
            r.tool_errors == 0,
            r.conflict is None,
            r.ultracode_at is None,
    {
        Session {
            provider,
            agent,
            surface: Surface::Cli,
            type_label: String::new(),
            session_id,
            model: String::new(),
            title: None,
            harness: String::new(),
            label_source: String::new(),
            owner: None,
            started_at: String::new(),
            last_active: String::new(),
            data_file: None,
            session_dir: None,
            remote: None,
            subagents: Vec::new(),
            process: None,
            inferred_running: false,
            state: ActivityState::WaitingForInput,
            context: None,
            cost_available: true,
            cost_is_free: false,
            total_cost: None,
            cpu: 0,
            tool_count: 0,
            tool_errors: 0,
            conflict: None,
            ultracode_at: None,
        }
    }

    /// A session that says the same.
    pub fn copy(&self) -> (r: Session)
        ensures
            alike(r, *self),
    {
        let mut subagents: Vec<Subagent> = Vec::new();
        let mut i: usize = 0;
        while i < self.subagents.len()
            invariant
                i <= self.subagents@.len(),
                subagents@ == self.subagents@.take(i as int),
            decreases self.subagents@.len() - i,
        {
            subagents.push(self.subagents[i].clone());
            assert(subagents@ =~= self.subagents@.take(i + 1));
            i += 1;
        }
        assert(self.subagents@.take(i as int) =~= self.subagents@);
        let process = match &self.process {
            None => None,
            Some(p) => {
                let mut list: Vec<Proc> = Vec::new();
                let mut k: usize = 0;
                while k < p.list.len()
                    invariant
                        k <= p.list@.len(),
                        list@ == p.list@.take(k as int),
                    decreases p.list@.len() - k,
                {
                    list.push(p.list[k].clone());
                    assert(list@ =~= p.list@.take(k + 1));
                    k += 1;
                }
                assert(p.list@.take(k as int) =~= p.list@);
                Some(
                    Process {
                        pid: p.pid,
                        command: p.command.clone(),
                        cpu: p.cpu,
                        memory: p.memory,
                        pids: p.pids,
                        list,
                    },
                )
            },
        };
        let remote = match &self.remote {
            Some(r) => Some(r.clone()),
            None => None,
        };
        Session {
            provider: self.provider,
            agent: self.agent.clone(),
            surface: self.surface,
            type_label: self.type_label.clone(),
            session_id: self.session_id.clone(),
            model: self.model.clone(),
            title: copy_text(&self.title),
            harness: self.harness.clone(),
            label_source: self.label_source.clone(),
            owner: copy_text(&self.owner),
            started_at: self.started_at.clone(),
            last_active: self.last_active.clone(),
            data_file: copy_text(&self.data_file),
            session_dir: copy_text(&self.session_dir),
            remote,
            subagents,
            process,
            inferred_running: self.inferred_running,
            state: self.state,
            context: self.context,
            cost_available: self.cost_available,
            cost_is_free: self.cost_is_free,
            total_cost: self.total_cost,
            cpu: self.cpu,
            tool_count: self.tool_count,
            tool_errors: self.tool_errors,
            conflict: self.conflict,
            ultracode_at: copy_text(&self.ultracode_at),
        }
    }

    /// A session's identity across refreshes.
    pub fn key(&self) -> (r: String)
        ensures
            r@ == key_of(*self),
    {
        let mut s = cat(self.agent.as_str(), ":");
        s.append(self.session_id.as_str());
        s
    }

    /// Whether an agent is at work behind the session.
    pub open spec fn running(&self) -> bool {
        self.process is Some || self.inferred_running
    }

    /// Whether an agent is at work behind the session.
    pub fn is_running(&self) -> (r: bool)
        ensures
            r == self.running(),
    {
        self.process.is_some() || self.inferred_running
    }

    /// The agent's own process, where there is one here.
    pub open spec fn pid(&self) -> Option<u32> {
        match self.process {
            Some(p) => Some(p.pid),
            None => None,
        }
    }

    /// The agent's own process, where there is one here.
    pub fn root_pid(&self) -> (r: Option<u32>)
        ensures
            r == self.pid(),
    {
        match &self.process {
            Some(p) => Some(p.pid),
            None => None,
        }
    }

    /// Whether the window is being compacted right now.
    pub open spec fn compacting(&self) -> bool {
        self.context is Some && self.context->0.compacted && self.running()
    }

    /// Whether the window is being compacted right now.
    pub fn is_compacting(&self) -> (r: bool)
        ensures
            r == self.compacting(),
    {
        match self.context {
            Some(c) => c.compacted && self.is_running(),
            None => false,
        }
    }

    /// The name the table shows the session under.
    pub open spec fn label(&self) -> Seq<char> {
        match self.title {
            Some(t) => t@,
            None => self.label_source@,
        }
    }

    /// The name the table shows the session under.
    pub fn display_label(&self) -> (r: &str)
        ensures
            r@ == self.label(),
    {
        match &self.title {
            Some(t) => t.as_str(),
            None => self.label_source.as_str(),
        }
    }
}

/// Sessions of one agent with the same key are the same session, and a session is
/// called by its title where it has one.
pub proof fn a_key_tells_sessions_apart(a: Session, b: Session)
    requires
        a.agent@ == b.agent@,
    ensures
        key_of(a) == key_of(b) <==> a.session_id@ == b.session_id@,
        a.title matches Some(t) ==> a.label() == t@,
        a.title is None ==> a.label() == a.label_source@,
        a.running() <==> a.process is Some || a.inferred_running,
        a.process matches Some(p) ==> a.pid() == Some(p.pid),
        a.compacting() ==> a.running(),
{
    reveal_strlit(":");
    if key_of(a) == key_of(b) {
        let n = a.agent@.len() as int + 1;
        assert(key_of(a).skip(n) =~= a.session_id@);
        assert(key_of(b).skip(n) =~= b.session_id@);
    }
}

} // verus!
