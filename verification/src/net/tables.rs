//! Table schemas of the networked state, as plain records.
use vstd::prelude::*;

verus! {

/// Network-safe player identity
pub type NetworkPlayerId = u64;

/// Player presence and profile
#[derive(Clone, Debug)]
pub struct PlayerTable {
    pub identity: NetworkPlayerId,
    pub name: String,
    pub playtime_secs: u64,
    pub last_login: u64,
    pub online: bool,
}

/// A recorded discovery
#[derive(Clone, Debug)]
pub struct DiscoveryTable {
    pub phenomenon_id: u32,
    pub discoverer: NetworkPlayerId,
    pub timestamp: u64,
    pub is_first: bool,
    pub notes: String,
}

/// Historical milestone
#[derive(Clone, Debug)]
pub struct MilestoneTable {
    pub milestone_type: String,
    pub timestamp: u64,
    pub participants: Vec<NetworkPlayerId>,
    pub documentation: String,
}

} // verus!
