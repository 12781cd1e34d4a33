use weaver::resolved::attribute::{Attribute as ResolvedAttribute, AttributeType as ResolvedType, AttributeRef};
use weaver::resolved::registry::TypedGroup;
use weaver::resolver::attribute::{resolve_attribute, AttributeCatalog};
use weaver::resolver::registry::{resolve_registry, resolve_semconv_registry, unresolved_registry_from_specs};
use weaver::resolver::resource::resolve_resource;
use weaver::resolver::resource_metrics::resolve_metrics;
use weaver::resolver::schema_attribute::{merge_attributes, resolve_attributes};
use weaver::resolver::stability::resolve_stability;
use weaver::resolver::{is_hidden, is_semantic_convention_file, Error, SchemaResolver};
use weaver::schema::{SemConvImport, TelemetrySchema};
use weaver::resolved::catalog::Stability as ResolvedStability;
use weaver::schema::attribute::Attribute as SchemaAttribute;
use weaver::schema::metric::{MetricGroup, Metric as GroupMetric, ResourceMetrics, UnivariateMetric};
use weaver::schema::spec::{Resource, SchemaSpec};
use weaver::semconv::attribute::{Attribute, AttributeType, BasicAttributeType};
use weaver::semconv::catalog::{ResolverConfig, SemConvCatalog, SemConvSpec};
use weaver::semconv::group::{ConvType, Group, Instrument};
use weaver::semconv::stability::Stability;
use weaver::tags::Tags;
use weaver::text_map::TextMap;
use weaver::version::{
    Category, RenameAttributes, SpansChange, SpansVersion, Version, VersionChanges, VersionSpec, Versions,
};

fn def(id: &str, brief: &str) -> Attribute {
    Attribute::Id {
        id: id.to_string(),
        attr_type: AttributeType::Basic(BasicAttributeType::String),
        brief: brief.to_string(),
        examples: None,
        tag: None,
        requirement_level: None,
        sampling_relevant: None,
        note: None,
        stability: Some(Stability::Stable),
        deprecated: None,
        value: None,
    }
}

fn reference(r: &str, brief: Option<&str>) -> Attribute {
    Attribute::Ref {
        reference: r.to_string(),
        brief: brief.map(|b| b.to_string()),
        examples: None,
        tag: None,
        requirement_level: None,
        sampling_relevant: None,
        note: None,
        stability: None,
        deprecated: None,
        value: None,
    }
}

fn group(id: &str, group_type: ConvType, prefix: &str, attributes: Vec<Attribute>) -> Group {
    Group {
        id: id.to_string(),
        group_type,
        brief: String::new(),
        note: String::new(),
        prefix: prefix.to_string(),
        extends: None,
        stability: None,
        deprecated: None,
        attributes,
        constraints: vec![],
        span_kind: None,
        events: vec![],
        metric_name: None,
        instrument: None,
        unit: None,
        name: None,
    }
}

fn schema_ref(r: &str, brief: Option<&str>) -> SchemaAttribute {
    SchemaAttribute::Ref {
        reference: r.to_string(),
        brief: brief.map(|b| b.to_string()),
        examples: None,
        tag: None,
        requirement_level: None,
        sampling_relevant: None,
        note: None,
        stability: None,
        deprecated: None,
        tags: None,
        value: None,
    }
}

fn schema_def(id: &str, brief: &str) -> SchemaAttribute {
    SchemaAttribute::Id {
        id: id.to_string(),
        attr_type: AttributeType::Basic(BasicAttributeType::Int),
        brief: brief.to_string(),
        examples: None,
        tag: None,
        requirement_level: None,
        sampling_relevant: None,
        note: None,
        stability: None,
        deprecated: None,
        tags: None,
        value: None,
    }
}

fn schema_attr_id(a: &SchemaAttribute) -> String {
    match a {
        SchemaAttribute::Ref { reference, .. } => reference.clone(),
        SchemaAttribute::Id { id, .. } => id.clone(),
        SchemaAttribute::AttributeGroupRef { attribute_group_ref, .. } => attribute_group_ref.clone(),
    }
}

fn schema_attr_brief(a: &SchemaAttribute) -> Option<String> {
    match a {
        SchemaAttribute::Ref { brief, .. } => brief.clone(),
        SchemaAttribute::Id { brief, .. } => Some(brief.clone()),
        SchemaAttribute::AttributeGroupRef { .. } => None,
    }
}

fn resolved_catalog() -> SemConvCatalog {
    let mut catalog = SemConvCatalog::new();
    let spec = SemConvSpec {
        groups: vec![
            group("registry.http", ConvType::AttributeGroup, "http", vec![def("method", "The method"), def("url", "The URL")]),
            group("registry.db", ConvType::AttributeGroup, "db", vec![def("name", "The database")]),
        ],
    };
    assert!(catalog.add_spec("registry.yaml".to_string(), spec).is_ok());
    let metrics = SemConvSpec {
        groups: vec![{
            let mut g = group("metric.http.duration", ConvType::Metric, "", vec![reference("http.method", None)]);
            g.metric_name = Some("http.duration".to_string());
            g.instrument = Some(Instrument::Histogram);
            g.unit = Some("s".to_string());
            g.brief = "Duration".to_string();
            g
        }],
    };
    assert!(catalog.add_spec("metrics.yaml".to_string(), metrics).is_ok());
    assert!(catalog.resolve(ResolverConfig::default()).is_ok());
    catalog
}

fn no_changes() -> VersionChanges {
    Versions::new().version_changes_for(&Version { major: 1, minor: 0, patch: 0 })
}

#[test]
fn resolve_attribute_through_the_catalog() {
    let catalog = resolved_catalog();
    let resolved = resolve_attribute(&catalog, &reference("http.method", Some("ignored"))).ok().unwrap();
    assert_eq!(resolved.name, "http.method");
    assert_eq!(resolved.brief, "The method");
    assert!(matches!(resolved.attr_type, ResolvedType::String));
    assert!(matches!(resolved.stability, Some(ResolvedStability::Stable)));
    let direct = resolve_attribute(&catalog, &def("local", "Local")).ok().unwrap();
    assert_eq!(direct.name, "local");
    assert_eq!(direct.brief, "Local");
    match resolve_attribute(&catalog, &reference("http.nope", None)) {
        Err(Error::FailToResolveAttributes { ids, error }) => {
            assert_eq!(ids, vec!["http.nope".to_string()]);
            assert_eq!(error, "Attribute ref not found in the resolved registry");
        },
        _ => panic!("expected a resolution failure"),
    }
}

fn resolved(name: &str, brief: &str) -> ResolvedAttribute {
    ResolvedAttribute {
        name: name.to_string(),
        attr_type: ResolvedType::Boolean,
        brief: brief.to_string(),
        examples: None,
        tag: None,
        requirement_level: None,
        sampling_relevant: Some(true),
        note: None,
        stability: None,
        deprecated: None,
        tags: None,
        value: None,
    }
}

#[test]
fn attribute_catalog_interns_attributes() {
    let mut catalog = AttributeCatalog::new();
    let a = catalog.attribute_ref(resolved("a", "first"));
    let b = catalog.attribute_ref(resolved("b", "second"));
    let a2 = catalog.attribute_ref(resolved("a", "first"));
    let a3 = catalog.attribute_ref(resolved("a", "other brief"));
    assert_eq!(a, AttributeRef(0));
    assert_eq!(b, AttributeRef(1));
    assert_eq!(a2, a);
    assert_eq!(a3, AttributeRef(2));
    let all = catalog.drain_attributes();
    assert_eq!(all.len(), 3);
    assert_eq!(all[0].name, "a");
    assert_eq!(all[1].name, "b");
    assert_eq!(all[2].brief, "other brief");
}

#[test]
fn attribute_catalog_references_round_trip() {
    let mut catalog = AttributeCatalog::default();
    let mut handed = Vec::new();
    let inputs = vec![("x", "one"), ("y", "two"), ("x", "one"), ("z", "three"), ("y", "two"), ("x", "changed")];
    for (name, brief) in &inputs {
        handed.push((catalog.attribute_ref(resolved(name, brief)), name.to_string(), brief.to_string()));
    }
    let d = catalog.resolve("ns", &def("w", "defined")).unwrap();
    let r = catalog.resolve("", &reference("ns.w", None)).unwrap();
    assert!(catalog.resolve("", &reference("ns.unknown", None)).is_none());
    let all = catalog.drain_attributes();
    // One reference per distinct attribute, numbered from zero.
    assert_eq!(all.len(), 5);
    let mut refs: Vec<u32> = handed.iter().map(|(r, _, _)| r.0).collect();
    refs.push(d.0);
    refs.sort();
    refs.dedup();
    assert_eq!(refs, vec![0, 1, 2, 3, 4]);
    // Each reference finds the attribute it was handed out for.
    for (r, name, brief) in &handed {
        assert_eq!(&all[r.0 as usize].name, name);
        assert_eq!(&all[r.0 as usize].brief, brief);
    }
    assert_eq!(d, r);
    assert_eq!(all[d.0 as usize].name, "ns.w");
}

#[test]
fn attribute_catalog_resolves_against_roots() {
    let mut catalog = AttributeCatalog::default();
    // A reference to a root that is not known yet.
    assert!(catalog.resolve("", &reference("http.method", None)).is_none());
    // A definition becomes a root under its fully qualified id.
    let d = catalog.resolve("http", &def("method", "The method")).unwrap();
    let r = catalog.resolve("", &reference("http.method", None)).unwrap();
    assert_eq!(d, r);
    let o = catalog.resolve("", &reference("http.method", Some("Overridden"))).unwrap();
    assert_ne!(o, d);
    let all = catalog.drain_attributes();
    assert_eq!(all.len(), 2);
    assert_eq!(all[0].name, "http.method");
    assert_eq!(all[1].brief, "Overridden");
}

#[test]
fn registry_resolution_reaches_a_fixpoint() {
    let specs = vec![
        SemConvSpec { groups: vec![group("span.http", ConvType::Span, "", vec![reference("http.method", Some("Span method"))])] },
        SemConvSpec { groups: vec![group("registry.http", ConvType::AttributeGroup, "http", vec![def("method", "The method")])] },
    ];
    let ureg = unresolved_registry_from_specs("https://semconv-registry.com", &specs);
    assert_eq!(ureg.groups.len(), 2);
    let mut catalog = AttributeCatalog::new();
    let registry = resolve_registry(ureg, &mut catalog).ok().unwrap();
    assert_eq!(registry.registry_url, "https://semconv-registry.com");
    assert_eq!(registry.groups.len(), 2);
    assert_eq!(registry.groups[0].id, "span.http");
    assert!(matches!(registry.groups[0].typed_group, TypedGroup::Span { .. }));
    assert_eq!(registry.groups[0].attributes.len(), 1);
    assert!(matches!(registry.groups[1].typed_group, TypedGroup::AttributeGroup));
    let attrs = catalog.drain_attributes();
    assert_eq!(attrs.len(), 2);
    let span_attr = &attrs[registry.groups[0].attributes[0].0 as usize];
    assert_eq!(span_attr.name, "http.method");
    assert_eq!(span_attr.brief, "Span method");
    let root_attr = &attrs[registry.groups[1].attributes[0].0 as usize];
    assert_eq!(root_attr.brief, "The method");
}

#[test]
fn registry_resolution_reports_unresolved_references() {
    let specs = vec![SemConvSpec {
        groups: vec![group("span.http", ConvType::Span, "", vec![reference("http.unknown", None), reference("http.gone", None)])],
    }];
    let ureg = unresolved_registry_from_specs("u", &specs);
    let mut catalog = AttributeCatalog::new();
    match resolve_registry(ureg, &mut catalog) {
        Err(Error::FailToResolveAttributes { ids, error }) => {
            assert_eq!(ids, vec!["http.unknown".to_string(), "http.gone".to_string()]);
            assert_eq!(error, "");
        },
        _ => panic!("expected unresolved attributes"),
    }
}

#[test]
fn semconv_registry_resolution_against_a_catalog() {
    let catalog = resolved_catalog();
    let specs = vec![SemConvSpec {
        groups: vec![group("span.db", ConvType::Span, "", vec![reference("db.name", None), def("local", "Local")])],
    }];
    let mut attr_catalog = AttributeCatalog::new();
    let registry = resolve_semconv_registry(&mut attr_catalog, "https://r", &specs, &catalog).ok().unwrap();
    assert_eq!(registry.registry_url, "https://r");
    assert_eq!(registry.groups.len(), 1);
    assert_eq!(registry.groups[0].attributes, vec![AttributeRef(0), AttributeRef(1)]);
    let attrs = attr_catalog.drain_attributes();
    assert_eq!(attrs[0].name, "db.name");
    assert_eq!(attrs[1].name, "local");

    let bad = vec![SemConvSpec { groups: vec![group("span.x", ConvType::Span, "", vec![reference("x.y", None)])] }];
    let mut attr_catalog = AttributeCatalog::new();
    match resolve_semconv_registry(&mut attr_catalog, "https://r", &bad, &catalog) {
        Err(Error::FailToResolveAttributes { ids, .. }) => assert_eq!(ids, vec!["x.y".to_string()]),
        _ => panic!("expected an error"),
    }
}

#[test]
fn merge_attributes_prefers_main_attributes() {
    let main = vec![schema_ref("a", Some("main a")), schema_def("c", "main c")];
    let inherited = vec![schema_ref("a", Some("inherited a")), schema_ref("b", None), schema_def("c", "inherited c")];
    let merged = merge_attributes(&main, &inherited);
    let ids: Vec<String> = merged.iter().map(schema_attr_id).collect();
    assert_eq!(ids, vec!["a", "c", "b"]);
    assert_eq!(schema_attr_brief(&merged[0]), Some("main a".to_string()));
    assert_eq!(schema_attr_brief(&merged[1]), Some("main c".to_string()));
}

#[test]
fn resolve_attributes_orders_and_overrides() {
    let catalog = resolved_catalog();
    let mut tags = Tags::new();
    tags.insert("sensitivity".to_string(), "PII".to_string());
    let attrs = vec![
        schema_def("zeta", "local zeta"),
        SchemaAttribute::AttributeGroupRef { attribute_group_ref: "registry.http".to_string(), tags: Some(tags) },
        schema_ref("http.url", Some("my url")),
        schema_def("http.method", "local method"),
    ];
    let resolved = resolve_attributes(&attrs, &catalog, &no_changes(), Category::Spans).ok().unwrap();
    let ids: Vec<String> = resolved.iter().map(schema_attr_id).collect();
    assert_eq!(ids, vec!["http.method", "http.url", "zeta"]);
    assert_eq!(schema_attr_brief(&resolved[0]), Some("local method".to_string()));
    assert_eq!(schema_attr_brief(&resolved[1]), Some("my url".to_string()));
    // The attribute of the group keeps the group's tags when nothing overrides it.
    let only_group = vec![SchemaAttribute::AttributeGroupRef {
        attribute_group_ref: "registry.http".to_string(),
        tags: Some({
            let mut t = Tags::new();
            t.insert("k".to_string(), "v".to_string());
            t
        }),
    }];
    let resolved = resolve_attributes(&only_group, &catalog, &no_changes(), Category::Spans).ok().unwrap();
    assert_eq!(resolved.len(), 2);
    match &resolved[0] {
        SchemaAttribute::Id { id, brief, tags, .. } => {
            assert_eq!(id, "http.method");
            assert_eq!(brief, "The method");
            assert_eq!(tags.as_ref().unwrap().get_tag("k").unwrap(), "v");
        },
        _ => panic!("expected a definition"),
    }
}

#[test]
fn resolve_attributes_follows_renamings() {
    let catalog = resolved_catalog();
    let mut versions = Versions::new();
    let mut renames = TextMap::new();
    renames.insert("http.verb".to_string(), "http.method".to_string());
    versions.insert(
        Version { major: 1, minor: 1, patch: 0 },
        VersionSpec {
            metrics: None,
            logs: None,
            resources: None,
            spans: Some(SpansVersion { changes: vec![SpansChange { rename_attributes: RenameAttributes { attribute_map: renames } }] }),
        },
    );
    let changes = versions.version_changes_for(&Version { major: 1, minor: 1, patch: 0 });
    let resolved = resolve_attributes(&[schema_ref("http.verb", None)], &catalog, &changes, Category::Spans).ok().unwrap();
    assert_eq!(schema_attr_id(&resolved[0]), "http.method");
    // Under another category the renaming does not apply.
    match resolve_attributes(&[schema_ref("http.verb", None)], &catalog, &changes, Category::Logs) {
        Err(Error::FailToResolveAttributes { ids, .. }) => assert_eq!(ids, vec!["http.verb".to_string()]),
        _ => panic!("expected an error"),
    }
}

#[test]
fn resolve_attributes_reports_unknown_groups() {
    let catalog = resolved_catalog();
    let attrs = vec![SchemaAttribute::AttributeGroupRef { attribute_group_ref: "registry.none".to_string(), tags: None }];
    match resolve_attributes(&attrs, &catalog, &no_changes(), Category::Spans) {
        Err(Error::FailToResolveAttributes { ids, error }) => {
            assert_eq!(ids, vec!["registry.none".to_string()]);
            assert_eq!(error, "Attribute reference `registry.none` not found.");
        },
        _ => panic!("expected an error"),
    }
}

fn empty_schema() -> SchemaSpec {
    SchemaSpec {
        tags: None,
        resource: None,
        instrumentation_library: None,
        resource_metrics: None,
        resource_events: None,
        resource_spans: None,
    }
}

#[test]
fn resolve_resource_attributes() {
    let catalog = resolved_catalog();
    let mut schema = empty_schema();
    schema.resource = Some(Resource { attributes: vec![schema_ref("db.name", None), schema_def("a.local", "x")], tags: None });
    assert!(resolve_resource(&mut schema, &catalog, &no_changes()).is_ok());
    let attrs = &schema.resource.as_ref().unwrap().attributes;
    assert_eq!(attrs.iter().map(schema_attr_id).collect::<Vec<_>>(), vec!["a.local", "db.name"]);
    assert_eq!(schema_attr_brief(&attrs[1]), Some("The database".to_string()));

    let mut bad = empty_schema();
    bad.resource = Some(Resource { attributes: vec![schema_ref("db.unknown", None)], tags: None });
    assert!(resolve_resource(&mut bad, &catalog, &no_changes()).is_err());
    // On an error the resource is left as it was.
    assert_eq!(schema_attr_id(&bad.resource.as_ref().unwrap().attributes[0]), "db.unknown");

    let mut none = empty_schema();
    assert!(resolve_resource(&mut none, &catalog, &no_changes()).is_ok());
    assert!(none.resource.is_none());
}

#[test]
fn resolve_metrics_of_a_schema() {
    let catalog = resolved_catalog();
    let mut schema = empty_schema();
    schema.resource_metrics = Some(ResourceMetrics {
        attributes: vec![schema_ref("db.name", None)],
        metrics: vec![UnivariateMetric::Ref { reference: "http.duration".to_string(), attributes: vec![], tags: None }],
        metric_groups: vec![MetricGroup {
            id: "group".to_string(),
            attributes: vec![schema_ref("http.url", None)],
            metrics: vec![GroupMetric::Ref { reference: "http.duration".to_string(), tags: None }],
            tags: None,
        }],
        tags: None,
    });
    let mut warnings = Vec::new();
    assert!(resolve_metrics(&mut schema, &catalog, &no_changes(), &mut warnings).is_ok());
    // The group's metric refers to a metric with attributes of its own.
    assert_eq!(
        warnings,
        vec!["Attributes inherited from the 'http.duration' metric will be disregarded. Instead, the common attributes specified for the metric group 'group' will be utilized.".to_string()]
    );
    let rm = schema.resource_metrics.as_ref().unwrap();
    match &rm.metrics[0] {
        UnivariateMetric::Metric { name, brief, instrument, unit, attributes, .. } => {
            assert_eq!(name, "http.duration");
            assert_eq!(brief, "Duration");
            assert_eq!(*instrument, Some(Instrument::Histogram));
            assert_eq!(unit.as_deref(), Some("s"));
            assert_eq!(attributes.iter().map(schema_attr_id).collect::<Vec<_>>(), vec!["http.method"]);
        },
        _ => panic!("expected a resolved metric"),
    }
    assert!(matches!(rm.metric_groups[0].metrics[0], GroupMetric::Metric { .. }));

    let mut bad = empty_schema();
    bad.resource_metrics = Some(ResourceMetrics {
        attributes: vec![],
        metrics: vec![UnivariateMetric::Ref { reference: "nope".to_string(), attributes: vec![], tags: None }],
        metric_groups: vec![],
        tags: None,
    });
    let mut warnings = Vec::new();
    match resolve_metrics(&mut bad, &catalog, &no_changes(), &mut warnings) {
        Err(Error::FailToResolveMetric { reference }) => assert_eq!(reference, "nope"),
        _ => panic!("expected a metric failure"),
    }
    assert!(warnings.is_empty());
}

#[test]
fn metric_group_warnings_stop_at_the_first_error() {
    let catalog = resolved_catalog();
    let mut schema = empty_schema();
    schema.resource_metrics = Some(ResourceMetrics {
        attributes: vec![],
        metrics: vec![],
        metric_groups: vec![
            MetricGroup {
                id: "first".to_string(),
                attributes: vec![],
                metrics: vec![
                    GroupMetric::Ref { reference: "http.duration".to_string(), tags: None },
                    GroupMetric::Ref { reference: "missing".to_string(), tags: None },
                    GroupMetric::Ref { reference: "http.duration".to_string(), tags: None },
                ],
                tags: None,
            },
            MetricGroup {
                id: "second".to_string(),
                attributes: vec![],
                metrics: vec![GroupMetric::Ref { reference: "http.duration".to_string(), tags: None }],
                tags: None,
            },
        ],
        tags: None,
    });
    let mut warnings = vec!["earlier".to_string()];
    match resolve_metrics(&mut schema, &catalog, &no_changes(), &mut warnings) {
        Err(Error::FailToResolveMetric { reference }) => assert_eq!(reference, "missing"),
        _ => panic!("expected a metric failure"),
    }
    assert_eq!(
        warnings,
        vec![
            "earlier".to_string(),
            "Attributes inherited from the 'http.duration' metric will be disregarded. Instead, the common attributes specified for the metric group 'first' will be utilized.".to_string(),
        ]
    );
}

#[test]
fn resolve_stability_maps_levels() {
    assert!(matches!(resolve_stability(&Some(Stability::Deprecated)), Some(ResolvedStability::Deprecated)));
    assert!(matches!(resolve_stability(&Some(Stability::Experimental)), Some(ResolvedStability::Experimental)));
    assert!(matches!(resolve_stability(&Some(Stability::Stable)), Some(ResolvedStability::Stable)));
    assert!(resolve_stability(&None).is_none());
}

#[test]
fn latest_version_changes_of_a_schema() {
    assert!(SchemaResolver::latest_version_changes(&None).is_none());
    assert!(SchemaResolver::latest_version_changes(&Some(Versions::new())).is_none());
    let mut versions = Versions::new();
    let mut renames = TextMap::new();
    renames.insert("old".to_string(), "new".to_string());
    versions.insert(
        Version { major: 1, minor: 2, patch: 0 },
        VersionSpec {
            metrics: None,
            logs: None,
            resources: None,
            spans: Some(SpansVersion { changes: vec![SpansChange { rename_attributes: RenameAttributes { attribute_map: renames } }] }),
        },
    );
    let changes = SchemaResolver::latest_version_changes(&Some(versions)).unwrap();
    assert_eq!(changes.get_span_attribute_name("old"), "new");
}

fn telemetry_schema(spec: Option<SchemaSpec>, versions: Option<Versions>) -> TelemetrySchema {
    TelemetrySchema {
        file_format: "1.2.0".to_string(),
        parent_schema_url: None,
        schema_url: "https://mycompany.com/schemas/1.0.0".to_string(),
        semantic_conventions: vec![SemConvImport { url: "https://semconv/registry.yaml".to_string() }],
        schema: spec,
        versions,
    }
}

#[test]
fn resolve_references_of_a_schema() {
    let catalog = resolved_catalog();
    let mut versions = Versions::new();
    let mut renames = TextMap::new();
    renames.insert("database.name".to_string(), "db.name".to_string());
    versions.insert(
        Version { major: 1, minor: 0, patch: 0 },
        VersionSpec {
            metrics: None,
            spans: None,
            resources: None,
            logs: Some(weaver::version::LogsVersion {
                changes: vec![weaver::version::LogsChange { rename_attributes: RenameAttributes { attribute_map: renames } }],
            }),
        },
    );
    let mut spec = empty_schema();
    spec.resource = Some(Resource { attributes: vec![schema_ref("database.name", None)], tags: None });
    spec.resource_metrics = Some(ResourceMetrics {
        attributes: vec![],
        metrics: vec![UnivariateMetric::Ref { reference: "http.duration".to_string(), attributes: vec![], tags: None }],
        metric_groups: vec![],
        tags: None,
    });
    let mut schema = telemetry_schema(Some(spec), Some(versions));
    let mut warnings = Vec::new();
    assert!(SchemaResolver::resolve_references(&mut schema, &catalog, &mut warnings).is_ok());
    assert!(warnings.is_empty());
    assert!(schema.semantic_conventions.is_empty());
    let resolved = schema.schema.as_ref().unwrap();
    assert_eq!(schema_attr_id(&resolved.resource.as_ref().unwrap().attributes[0]), "db.name");
    assert!(matches!(resolved.resource_metrics.as_ref().unwrap().metrics[0], UnivariateMetric::Metric { .. }));

    // A failure keeps the list of imports.
    let mut bad_spec = empty_schema();
    bad_spec.resource_metrics = Some(ResourceMetrics {
        attributes: vec![],
        metrics: vec![UnivariateMetric::Ref { reference: "unknown".to_string(), attributes: vec![], tags: None }],
        metric_groups: vec![],
        tags: None,
    });
    let mut bad = telemetry_schema(Some(bad_spec), None);
    match SchemaResolver::resolve_references(&mut bad, &catalog, &mut Vec::new()) {
        Err(Error::FailToResolveMetric { reference }) => assert_eq!(reference, "unknown"),
        _ => panic!("expected a metric failure"),
    }
    assert_eq!(bad.semantic_conventions.len(), 1);

    let mut empty = telemetry_schema(None, None);
    assert!(SchemaResolver::resolve_references(&mut empty, &catalog, &mut Vec::new()).is_ok());
    assert!(empty.schema.is_none());
    assert!(empty.semantic_conventions.is_empty());
}

#[test]
fn schema_version_changes_default_to_none() {
    let none = SchemaResolver::schema_version_changes(&None);
    assert_eq!(none.get_span_attribute_name("x"), "x");
    let default = VersionChanges::default();
    assert_eq!(default.get_metric_name("m"), "m");
    let mut versions = Versions::new();
    let mut renames = TextMap::new();
    renames.insert("a".to_string(), "b".to_string());
    versions.insert(
        Version { major: 2, minor: 0, patch: 0 },
        VersionSpec {
            metrics: Some(weaver::version::MetricsVersion {
                changes: vec![weaver::version::MetricsChange { rename_metrics: renames }],
            }),
            spans: None,
            resources: None,
            logs: None,
        },
    );
    let changes = SchemaResolver::schema_version_changes(&Some(versions));
    assert_eq!(changes.get_metric_name("a"), "b");
}

#[test]
fn semantic_convention_file_selection() {
    assert!(is_hidden(Some(".git")));
    assert!(!is_hidden(Some("model")));
    assert!(!is_hidden(Some("")));
    assert!(!is_hidden(None));
    assert!(is_semantic_convention_file(true, "yaml", "http.yaml"));
    assert!(is_semantic_convention_file(true, "yml", "http.yml"));
    assert!(!is_semantic_convention_file(true, "json", "http.json"));
    assert!(!is_semantic_convention_file(false, "yaml", "dir.yaml"));
    assert!(!is_semantic_convention_file(true, "yaml", "schema-next.yaml"));
}

#[test]
fn merge_parent_schema() {
    let mut parent_versions = Versions::new();
    let mut renames = TextMap::new();
    renames.insert("a".to_string(), "b".to_string());
    parent_versions.insert(
        Version { major: 1, minor: 0, patch: 0 },
        VersionSpec {
            metrics: Some(weaver::version::MetricsVersion {
                changes: vec![weaver::version::MetricsChange { rename_metrics: renames }],
            }),
            spans: None,
            resources: None,
            logs: None,
        },
    );
    let mut parent = telemetry_schema(None, Some(parent_versions));
    parent.semantic_conventions = vec![
        SemConvImport { url: "https://semconv/a.yaml".to_string() },
        SemConvImport { url: "https://semconv/registry.yaml".to_string() },
    ];
    let mut schema = telemetry_schema(None, None);
    schema.semantic_conventions.push(SemConvImport { url: "https://semconv/b.yaml".to_string() });
    schema.merge_parent(parent);
    let urls: Vec<String> = schema.semantic_conventions.iter().map(|i| i.url.clone()).collect();
    assert_eq!(
        urls,
        vec!["https://semconv/a.yaml", "https://semconv/registry.yaml", "https://semconv/b.yaml"]
    );
    let versions = schema.versions.as_ref().unwrap();
    assert_eq!(versions.len(), 1);
    let changes = versions.version_changes_for(&Version { major: 1, minor: 0, patch: 0 });
    assert_eq!(changes.get_metric_name("a"), "b");
    assert_eq!(schema.schema_url, "https://mycompany.com/schemas/1.0.0");
}
