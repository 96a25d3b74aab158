//! Selects a reachable upstream proxy node, synthesizes a forwarding-engine
//! configuration for it, and models the engine's lifecycle so that a thin
//! driver can launch and supervise the engine process.

pub mod config;
pub mod json;
pub mod proxy;
pub mod release;
pub mod selection;
pub mod subscription;
pub mod text;

use vstd::prelude::*;
use vstd::string::StringExecFns;

verus! {

/// The errors a run can end with, one variant per failure the caller can
/// meet. Probe-level failures are never errors: an unreachable candidate is
/// simply skipped.
#[derive(Debug, Clone, PartialEq, Eq)]
pub enum RouteError {
    /// The cached node list holds no node the forwarding engine can use.
    NoSupportedNodes,
    /// Every usable node failed its reachability probe.
    NoReachableNode,
    /// A node lacks required fields for its declared protocol.
    UnsupportedNode { name: String, node_type: String },
    /// The forwarding engine could not be started.
    EngineSpawnFailed,
    /// The engine's local port did not open before the deadline.
    EngineNotReady,
}

impl RouteError {
    /// The operator-facing description of the error.
    pub open spec fn spec_message(&self) -> Seq<char> {
        match self {
            RouteError::NoSupportedNodes => "No supported node found in subscription"@,
            RouteError::NoReachableNode => "No reachable node after ping checks"@,
            RouteError::UnsupportedNode { name, node_type } => "Node '"@ + name@ + "' with type '"@
                + node_type@ + "' is unsupported"@,
            RouteError::EngineSpawnFailed => "Failed to start proxy core"@,
            RouteError::EngineNotReady => "Proxy port is not reachable within the timeout"@,
        }
    }

    /// Renders the error for the operator, exactly as `spec_message` states.
    pub fn message(&self) -> (s: String)
        ensures
            s@ == self.spec_message(),
    {
        match self {
            RouteError::NoSupportedNodes => String::from_str(
                "No supported node found in subscription",
            ),
            RouteError::NoReachableNode => String::from_str("No reachable node after ping checks"),
            RouteError::UnsupportedNode { name, node_type } => {
                let mut s = String::from_str("Node '");
                s.append(name.as_str());
                s.append("' with type '");
                s.append(node_type.as_str());
                s.append("' is unsupported");
                s
            },
            RouteError::EngineSpawnFailed => String::from_str("Failed to start proxy core"),
            RouteError::EngineNotReady => String::from_str(
                "Proxy port is not reachable within the timeout",
            ),
        }
    }
}

} // verus!
