//! The catalog of attributes and metrics shared across the signals of a
//! resolved telemetry schema.
use vstd::prelude::*;
use crate::resolved::attribute::Attribute;
use crate::semconv::group::Instrument;
use crate::tags::Tags;

verus! {

/// A catalog of attributes, metrics, and other telemetry signals that are
/// shared in the resolved telemetry schema.
pub struct Catalog {
    /// Catalog of attributes used in the schema.
    pub attributes: Vec<Attribute>,
    /// Catalog of metrics used in the schema.
    pub metrics: Vec<Metric>,
}

/// A metric of the catalog.
pub struct Metric {
    /// Metric name.
    pub name: String,
    /// Brief description of the metric.
    pub brief: String,
    /// Note on the metric.
    pub note: String,
    /// Type of the metric.
    pub instrument: Instrument,
    /// Unit of the metric.
    pub unit: Option<String>,
    /// A set of tags for the metric.
    pub tags: Option<Tags>,
}

/// The level of stability for a definition.
#[derive(Clone, Copy, Debug, PartialEq, Eq, Structural, Hash)]
pub enum Stability {
    /// A deprecated definition.
    Deprecated,
    /// An experimental definition.
    Experimental,
    /// A stable definition.
    Stable,
}

} // verus!
