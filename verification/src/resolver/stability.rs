//! Resolution of a semantic convention stability field.
use vstd::prelude::*;
use crate::resolved::catalog::Stability;
use crate::semconv::stability::Stability as StabilitySpec;

verus! {

/// The resolved stability of a semantic convention stability.
pub open spec fn resolved_stability(s: Option<StabilitySpec>) -> Option<Stability> {
    match s {
        Some(StabilitySpec::Deprecated) => Some(Stability::Deprecated),
        Some(StabilitySpec::Experimental) => Some(Stability::Experimental),
        Some(StabilitySpec::Stable) => Some(Stability::Stable),
        None => None,
    }
}

/// Resolves a semantic convention stability field.
pub fn resolve_stability(stability: &Option<StabilitySpec>) -> (r: Option<Stability>)
    ensures
        r == resolved_stability(*stability),
{
    match stability {
        Some(StabilitySpec::Deprecated) => Some(Stability::Deprecated),
        Some(StabilitySpec::Experimental) => Some(Stability::Experimental),
        Some(StabilitySpec::Stable) => Some(Stability::Stable),
        None => None,
    }
}

} // verus!
