//! Resolution of the resource of a telemetry schema.
use vstd::prelude::*;
use crate::resolver::{Error, ErrorView};
use crate::resolver::schema_attribute::{resolve_attributes, resolved_map};
use crate::schema::attribute::schema_attrs_view;
use crate::schema::spec::{Resource, SchemaSpec};
use crate::semconv::catalog::SemConvCatalog;
use crate::sorted::sorted_values;
use crate::version::{Category, VersionChanges};

verus! {

/// Resolves the attributes of the resource of a schema, named after the
/// log attribute changes of the given version changes. On an error the
/// schema is unchanged.
pub fn resolve_resource(
    schema: &mut SchemaSpec,
    sem_conv_catalog: &SemConvCatalog,
    version_changes: &VersionChanges,
) -> (r: Result<(), Error>)
    ensures
        final(schema).tags == old(schema).tags,
        final(schema).instrumentation_library == old(schema).instrumentation_library,
        final(schema).resource_metrics == old(schema).resource_metrics,
        final(schema).resource_events == old(schema).resource_events,
        final(schema).resource_spans == old(schema).resource_spans,
        match old(schema).resource {
            None => r is Ok && final(schema).resource is None,
            Some(res) => match resolved_map(
                *sem_conv_catalog,
                version_changes.renames(Category::Logs),
                schema_attrs_view(res.attributes@),
            ) {
                Ok(m) => r is Ok && (final(schema).resource matches Some(f) && schema_attrs_view(
                    f.attributes@,
                ) == sorted_values(m) && f.tags == res.tags),
                Err(e) => r matches Err(x) && x@ == e && final(schema).resource == old(schema).resource,
            },
        },
{
    let mut taken: Option<Resource> = None;
    std::mem::swap(&mut taken, &mut schema.resource);
    match taken {
        Some(mut res) => {
            match resolve_attributes(&res.attributes, sem_conv_catalog, version_changes, Category::Logs) {
                Ok(attributes) => {
                    res.attributes = attributes;
                    schema.resource = Some(res);
                    Ok(())
                },
                Err(e) => {
                    schema.resource = Some(res);
                    Err(e)
                },
            }
        },
        None => {
            schema.resource = None;
            Ok(())
        },
    }
}

} // verus!
