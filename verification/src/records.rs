//! Record model shared by the two backends and the diagnostics engine:
//! agents, spawns, activity-ledger rows, tail events and the daemon's
//! published status.

use vstd::prelude::*;

verus! {

/// A registered agent as the platform reports it.
#[derive(Debug, Clone)]
pub struct Agent {
    pub id: String,
    pub identity: String,
    pub agent_type: String,
    pub model: Option<String>,
    pub constitution: Option<String>,
    pub avatar_path: Option<String>,
    pub color: Option<String>,
    pub created_at: String,
    pub archived_at: Option<String>,
}

/// One task run of an agent.
#[derive(Debug, Clone)]
pub struct Spawn {
    pub id: String,
    pub agent_id: String,
    pub project_id: Option<String>,
    pub caller_spawn_id: Option<String>,
    pub source: Option<String>,
    pub status: String,
    pub error: Option<String>,
    pub pid: Option<i32>,
    pub session_id: Option<String>,
    pub summary: Option<String>,
    pub trace_hash: Option<String>,
    pub created_at: String,
    pub last_active_at: Option<String>,
}

/// One append-only ledger row.
#[derive(Debug, Clone)]
pub struct Activity {
    pub id: i64,
    pub agent_id: String,
    pub spawn_id: Option<String>,
    pub primitive: String,
    pub primitive_id: String,
    pub action: String,
    pub field: Option<String>,
    pub after: Option<String>,
    pub created_at: String,
}

/// One line of a per-day event shard.
#[derive(Debug, Clone)]
pub struct TailEntry {
    pub spawn: String,
    pub agent: String,
    pub entry_type: String,
    pub content: Option<String>,
    pub name: Option<String>,
    pub args: Option<String>,
    pub ctx_pct: Option<i64>,
}

/// The background scheduler's published status.
#[derive(Debug, Clone)]
pub struct DaemonStatus {
    pub running: bool,
    pub pid: Option<i64>,
    pub enabled: bool,
    pub concurrency: i64,
    pub active_count: usize,
    pub last_skip: Option<String>,
}

impl Default for DaemonStatus {
    /// A status that reports nothing running.
    fn default() -> (r: DaemonStatus)
        ensures
            r.running == false,
            r.pid is None,
            r.enabled == false,
            r.concurrency == 0,
            r.active_count == 0,
            r.last_skip is None,
    {
        DaemonStatus {
            running: false,
            pid: None,
            enabled: false,
            concurrency: 0,
            active_count: 0,
            last_skip: None,
        }
    }
}

} // verus!
