//! Inference node records: registration and heartbeats.
use vstd::prelude::*;

use super::scheduler::effective_state_spec;
use super::types::{CreateNodeRequest, InferenceNode, NodeState};

verus! {

/// A registered node: the request's inventory, ready, heard from at `now`.
pub fn node_from_request(req: CreateNodeRequest, now_unix: i64) -> (r: InferenceNode)
    ensures
        r == (InferenceNode {
            id: req.id,
            site: req.site,
            failure_domain: req.failure_domain,
            state: NodeState::Ready,
            heartbeat_unix: now_unix,
            gpus: req.gpus,
            taints: req.taints,
            cpu_free: req.cpu_free,
            memory_gib_free: req.memory_gib_free,
            cached_models: req.cached_models,
        }),
{
    InferenceNode {
        id: req.id,
        site: req.site,
        failure_domain: req.failure_domain,
        state: NodeState::Ready,
        heartbeat_unix: now_unix,
        gpus: req.gpus,
        taints: req.taints,
        cpu_free: req.cpu_free,
        memory_gib_free: req.memory_gib_free,
        cached_models: req.cached_models,
    }
}

/// The node after a heartbeat at `now`.
pub open spec fn heartbeat_spec(node: InferenceNode, now_unix: i64) -> InferenceNode {
    InferenceNode {
        heartbeat_unix: now_unix,
        state: if node.state == NodeState::Joining || node.state == NodeState::Offline {
            NodeState::Ready
        } else {
            node.state
        },
        ..node
    }
}

/// A heartbeat at `now`: a joining or offline node becomes ready; draining
/// and maintenance stay as declared.
pub fn heartbeat(node: InferenceNode, now_unix: i64) -> (r: InferenceNode)
    ensures
        r == heartbeat_spec(node, now_unix),
{
    let mut node = node;
    node.heartbeat_unix = now_unix;
    if node.state == NodeState::Joining || node.state == NodeState::Offline {
        node.state = NodeState::Ready;
    }
    node
}

/// Right after a heartbeat, a node that was joining, ready or lost counts
/// as ready for scheduling, and a draining or maintenance node keeps its
/// declared state.
pub proof fn lemma_heartbeat_revives(node: InferenceNode, now_unix: i64)
    ensures
        (node.state == NodeState::Joining || node.state == NodeState::Offline || node.state
            == NodeState::Ready) ==> effective_state_spec(heartbeat_spec(node, now_unix), now_unix)
            == NodeState::Ready,
        (node.state == NodeState::Draining || node.state == NodeState::Maintenance)
            ==> effective_state_spec(heartbeat_spec(node, now_unix), now_unix) == node.state,
{
}

} // verus!
