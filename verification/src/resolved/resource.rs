//! An OpenTelemetry resource of a resolved telemetry schema.
use vstd::prelude::*;
use crate::resolved::attribute::AttributeRef;

verus! {

/// Definition of a resource.
pub struct Resource {
    /// The attributes.
    pub attributes: Vec<AttributeRef>,
}

} // verus!
