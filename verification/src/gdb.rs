//! Settings of a debug server that speaks the GDB remote serial protocol.
use vstd::prelude::*;

verus! {

/// Settings of a debug server.
#[derive(Debug, Clone)]
pub struct GdbServerConfig {
    /// Address to listen on.
    pub host: String,
    /// Port to listen on.
    pub port: u16,
    /// Number of instructions kept for reverse debugging.
    pub history_depth: u64,
}

impl Default for GdbServerConfig {
    fn default() -> (r: Self)
        ensures
            r.host@ == "127.0.0.1"@,
            r.port == 3333,
            r.history_depth == 1_000_000,
    {
        GdbServerConfig { host: "127.0.0.1".to_string(), port: 3333, history_depth: 1_000_000 }
    }
}

/// State of a debug server.
#[derive(Debug, Clone, Copy, PartialEq, Eq, Structural)]
pub enum GdbServerState {
    Stopped,
    Running,
    Paused,
}

/// Number of hardware breakpoints.
pub const FPB_BREAKPOINT_MAX: usize = 6;

} // verus!
