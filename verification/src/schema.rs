//! Record model for rows read from the local store: channels, messages,
//! agents and spawns as the embedded database keeps them.

use vstd::prelude::*;

verus! {

/// A message posted in a channel.
#[derive(Debug, Clone)]
pub struct Message {
    pub message_id: String,
    pub channel_id: String,
    pub agent_id: String,
    pub content: String,
    pub created_at: String,
}

/// A channel that agents communicate in.
#[derive(Debug, Clone)]
pub struct Channel {
    pub channel_id: String,
    pub name: String,
    pub topic: Option<String>,
    pub created_at: String,
    pub pinned_at: Option<String>,
}

/// A registered agent identity.
#[derive(Debug, Clone)]
pub struct Agent {
    pub agent_id: String,
    pub identity: String,
    pub constitution: Option<String>,
    pub model: String,
    pub role: Option<String>,
    pub spawn_count: i32,
    pub created_at: String,
    pub last_active_at: Option<String>,
}

/// One execution of an agent, with its lifecycle status.
#[derive(Debug, Clone)]
pub struct Spawn {
    pub id: String,
    pub agent_id: String,
    pub session_id: Option<String>,
    pub channel_id: Option<String>,
    pub constitution_hash: Option<String>,
    pub is_task: bool,
    pub status: String,
    pub pid: Option<i32>,
    pub created_at: String,
    pub ended_at: Option<String>,
}

} // verus!
