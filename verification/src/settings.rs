use vstd::prelude::*;

use crate::p2p::P2P_PORT;
use crate::util::vdf::VDF_DIFFICULTY;

verus! {

/// Settings every node shares: the port nodes talk on and the VDF
/// difficulty.
#[derive(Debug, Clone, Copy, PartialEq, Eq)]
pub struct InternalConfig {
    pub p2p_port: u16,
    pub vdf_difficulty: u64,
}

impl InternalConfig {
    /// The settings used when none are given.
    pub fn fallback() -> (res: Self)
        ensures
            res.p2p_port == P2P_PORT,
            res.vdf_difficulty == VDF_DIFFICULTY,
    {
        InternalConfig { p2p_port: P2P_PORT, vdf_difficulty: VDF_DIFFICULTY }
    }
}

/// What the node was started with.
#[derive(Debug, Clone, PartialEq, Eq)]
pub struct Args {
    /// Whether to mine blocks.
    pub mining: bool,
    /// A peer to add at start.
    pub peer: Option<String>,
    /// The port the API listens on.
    pub api_port: u16,
    /// How long to wait for a temperature, in seconds.
    pub beacon_timeout: u64,
    /// The command that reads temperatures.
    pub beacon_cmd: Vec<String>,
}

/// Everything a node runs with.
#[derive(Debug, Clone, PartialEq, Eq)]
pub struct Config {
    pub args: Args,
    pub internal_config: InternalConfig,
}

} // verus!
