//! The model-routing decision: whether a task stays on the local model or
//! goes to the cloud, with the recommended model and the reasoning text.
//! The cost figure reported alongside is derived by the caller from the
//! decision.

use vstd::prelude::*;

use crate::text::str_eq;

verus! {

/// A routing request: what kind of task, how large, how complex, and
/// whether high quality is demanded.
pub struct SmartRouteRequest {
    pub task_type: String,
    pub input_tokens: usize,
    pub complexity: String,
    pub require_high_quality: bool,
}

/// The routing decision.
#[derive(Debug, PartialEq)]
pub struct RouteDecision {
    pub use_local: bool,
    pub recommended_model: String,
    pub reasoning: String,
}

/// The request demands the cloud: high quality required or high complexity.
pub open spec fn routes_to_cloud(req: &SmartRouteRequest) -> bool {
    req.require_high_quality || req.complexity@ == "HIGH"@
}

/// Decides where the task runs: local by default, the cloud model when
/// high quality is required or the complexity is high.
pub fn smart_route(req: &SmartRouteRequest) -> (r: RouteDecision)
    ensures
        r.use_local == !routes_to_cloud(req),
        routes_to_cloud(req) ==> r.recommended_model@ == "gpt-4o"@ && r.reasoning@
            == "High complexity or quality requirement - routing to cloud"@,
        !routes_to_cloud(req) ==> r.recommended_model@ == "phi3:mini"@ && r.reasoning@
            == "Defaulting to local for cost savings"@,
{
    if req.require_high_quality || str_eq(req.complexity.as_str(), "HIGH") {
        RouteDecision {
            use_local: false,
            recommended_model: String::from_str("gpt-4o"),
            reasoning: String::from_str("High complexity or quality requirement - routing to cloud"),
        }
    } else {
        RouteDecision {
            use_local: true,
            recommended_model: String::from_str("phi3:mini"),
            reasoning: String::from_str("Defaulting to local for cost savings"),
        }
    }
}

} // verus!
