//! The resolved telemetry schema: self-contained definitions that hold no
//! reference to other schemas or semantic conventions.
pub mod value;
pub mod attribute;
pub mod catalog;
pub mod registry;
pub mod resource;

use vstd::prelude::*;
use crate::resolved::catalog::Catalog;
use crate::resolved::registry::Registry;
use crate::resolved::resource::Resource;
use crate::schema::spec::InstrumentationLibrary;
use crate::version::Versions;

verus! {

/// A resolved telemetry schema: self-contained, it holds no reference to
/// other schemas or semantic conventions.
pub struct ResolvedTelemetrySchema {
    /// Version of the file structure.
    pub file_format: String,
    /// Schema URL that this file is published at.
    pub schema_url: String,
    /// The semantic convention registries that can be used in this schema
    /// and its descendants.
    pub registries: Vec<Registry>,
    /// Catalog of unique items that are shared across multiple registries
    /// and signals.
    pub catalog: Catalog,
    /// Resource definition (only for application).
    pub resource: Option<Resource>,
    /// Definition of the instrumentation library for the instrumented
    /// application or library, or none for a semantic convention registry.
    pub instrumentation_library: Option<InstrumentationLibrary>,
    /// The list of dependencies of the current instrumentation application or
    /// library.
    pub dependencies: Vec<InstrumentationLibrary>,
    /// Definitions for each schema version in this family.
    pub versions: Option<Versions>,
}

} // verus!
