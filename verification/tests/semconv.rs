use weaver::semconv::attribute::{Attribute, AttributeType, BasicAttributeType};
use weaver::semconv::catalog::{validation_message, Error, ResolverConfig, SemConvCatalog, SemConvSpec};
use weaver::semconv::group::{validate_group, ConvType, Group, Instrument, SpanKind, ValidationError};
use weaver::semconv::stability::Stability;

fn def(id: &str, brief: &str) -> Attribute {
    Attribute::Id {
        id: id.to_string(),
        attr_type: AttributeType::Basic(BasicAttributeType::String),
        brief: brief.to_string(),
        examples: None,
        tag: None,
        requirement_level: None,
        sampling_relevant: None,
        note: None,
        stability: None,
        deprecated: None,
        value: None,
    }
}

fn reference(r: &str) -> Attribute {
    Attribute::Ref {
        reference: r.to_string(),
        brief: None,
        examples: None,
        tag: None,
        requirement_level: None,
        sampling_relevant: None,
        note: None,
        stability: None,
        deprecated: None,
        value: None,
    }
}

fn group(id: &str, group_type: ConvType, prefix: &str, attributes: Vec<Attribute>) -> Group {
    Group {
        id: id.to_string(),
        group_type,
        brief: format!("brief of {}", id),
        note: String::new(),
        prefix: prefix.to_string(),
        extends: None,
        stability: None,
        deprecated: None,
        attributes,
        constraints: vec![],
        span_kind: None,
        events: vec![],
        metric_name: None,
        instrument: None,
        unit: None,
        name: None,
    }
}

fn metric_group(id: &str, name: &str, extends: Option<&str>, attributes: Vec<Attribute>) -> Group {
    let mut g = group(id, ConvType::Metric, "", attributes);
    g.metric_name = Some(name.to_string());
    g.instrument = Some(Instrument::Counter);
    g.unit = Some("1".to_string());
    g.extends = extends.map(|e| e.to_string());
    g
}

fn http_catalog() -> SemConvCatalog {
    let mut catalog = SemConvCatalog::new();
    let registry = SemConvSpec {
        groups: vec![group("registry.http", ConvType::AttributeGroup, "http", vec![def("method", "The method"), def("url", "The URL")])],
    };
    let spans = SemConvSpec {
        groups: vec![group("span.http", ConvType::Span, "", vec![reference("http.method"), reference("http.missing")])],
    };
    assert!(catalog.add_spec("registry.yaml".to_string(), registry).is_ok());
    assert!(catalog.add_spec("spans.yaml".to_string(), spans).is_ok());
    catalog
}

#[test]
fn resolve_reports_missing_references_as_warnings() {
    let mut catalog = http_catalog();
    let warnings = match catalog.resolve(ResolverConfig { error_when_attribute_ref_not_found: false }) {
        Ok(w) => w,
        Err(e) => panic!("unexpected error: {}", e.to_text()),
    };
    assert_eq!(warnings.len(), 1);
    match &warnings[0].error {
        Error::InvalidAttribute { path_or_url, group_id, error } => {
            assert_eq!(path_or_url, "spans.yaml");
            assert_eq!(group_id, "span.http");
            assert_eq!(error, "Attribute reference 'http.missing' not found");
        },
        other => panic!("unexpected warning: {}", other.to_text()),
    }
    assert_eq!(
        warnings[0].error.to_text(),
        "Invalid attribute definition detected while resolving \"spans.yaml\", group_id=`span.http`.\n\"Attribute reference 'http.missing' not found\""
    );

    let method = catalog.get_attribute("http.method").unwrap();
    assert_eq!(method.id(), "http.method");
    assert!(catalog.get_attribute("method").is_none());

    let registry_attrs = catalog.get_attributes("registry.http", ConvType::AttributeGroup).ok().unwrap();
    assert_eq!(registry_attrs.len(), 2);
    assert!(registry_attrs.contains_key("http.url"));
    let span_attrs = catalog.get_attributes("span.http", ConvType::Span).ok().unwrap();
    assert_eq!(span_attrs.len(), 1);
    assert!(span_attrs.contains_key("http.method"));
    match catalog.get_attributes("span.http", ConvType::Event) {
        Err(Error::AttributeNotFound { reference }) => assert_eq!(reference, "span.http"),
        _ => panic!("expected an attribute group lookup failure"),
    }
}

#[test]
fn resolve_fails_on_missing_reference_by_default() {
    let mut catalog = http_catalog();
    match catalog.resolve(ResolverConfig::default()) {
        Err(Error::InvalidAttribute { group_id, error, .. }) => {
            assert_eq!(group_id, "span.http");
            assert_eq!(error, "Attribute reference 'http.missing' not found");
        },
        _ => panic!("expected an error"),
    }
    // What was processed before the error stays in the catalog.
    assert!(catalog.get_attribute("http.url").is_some());
}

#[test]
fn resolve_detects_duplicate_attribute_ids() {
    let mut catalog = SemConvCatalog::new();
    let spec = SemConvSpec {
        groups: vec![
            group("a", ConvType::AttributeGroup, "x", vec![def("y", "first")]),
            group("b", ConvType::AttributeGroup, "", vec![def("x.y", "second")]),
        ],
    };
    assert!(catalog.add_spec("dup.yaml".to_string(), spec).is_ok());
    match catalog.resolve(ResolverConfig::default()) {
        Err(e) => {
            assert_eq!(e.to_text(), "Duplicate attribute id `x.y` detected while loading \"dup.yaml\"");
            match e {
                Error::DuplicateAttributeId { path_or_url, id } => {
                    assert_eq!(path_or_url, "dup.yaml");
                    assert_eq!(id, "x.y");
                },
                _ => panic!("expected a duplicate attribute id"),
            }
        },
        Ok(_) => panic!("expected an error"),
    }
}

#[test]
fn resolve_detects_duplicate_group_ids() {
    let mut catalog = SemConvCatalog::new();
    assert!(catalog
        .add_spec("one.yaml".to_string(), SemConvSpec { groups: vec![group("g", ConvType::Span, "a", vec![def("b", "")])] })
        .is_ok());
    assert!(catalog
        .add_spec("two.yaml".to_string(), SemConvSpec { groups: vec![group("g", ConvType::Span, "c", vec![def("d", "")])] })
        .is_ok());
    match catalog.resolve(ResolverConfig::default()) {
        Err(Error::DuplicateGroupId { path_or_url, id, origin }) => {
            assert_eq!(path_or_url, "two.yaml");
            assert_eq!(id, "g");
            assert_eq!(origin, "one.yaml");
        },
        _ => panic!("expected a duplicate group id"),
    }
}

#[test]
fn resolve_indexes_metrics_and_extends() {
    let mut catalog = SemConvCatalog::new();
    let spec = SemConvSpec {
        groups: vec![
            metric_group("metric.base", "base", None, vec![def("a", "")]),
            metric_group("metric.child", "child", Some("metric.base"), vec![def("b", "")]),
        ],
    };
    assert!(catalog.add_spec("metrics.yaml".to_string(), spec).is_ok());
    assert!(catalog.resolve(ResolverConfig::default()).is_ok());
    let base = catalog.get_metric("base").unwrap();
    assert_eq!(base.attributes.len(), 1);
    assert_eq!(base.unit.as_deref(), Some("1"));
    let child = catalog.get_metric("child").unwrap();
    assert_eq!(child.name, "child");
    assert_eq!(child.attributes.len(), 2);
    assert!(catalog.get_metric("other").is_none());
}

#[test]
fn add_spec_rejects_invalid_groups() {
    let mut catalog = SemConvCatalog::new();
    let mut no_name = group("m", ConvType::Metric, "", vec![]);
    no_name.instrument = Some(Instrument::Gauge);
    let mut kind_on_event = group("e", ConvType::Event, "ev", vec![]);
    kind_on_event.span_kind = Some(SpanKind::Client);
    let spec = SemConvSpec { groups: vec![group("ok", ConvType::Span, "", vec![]), no_name, kind_on_event] };
    match catalog.add_spec("bad.yaml".to_string(), spec) {
        Err(Error::InvalidCatalog { path_or_url, line, column, error }) => {
            assert_eq!(path_or_url, "bad.yaml");
            assert_eq!(line, None);
            assert_eq!(column, None);
            assert_eq!(
                error,
                "groups[1]: This group contains a metric type but the metric_name is not set.\n\
                 groups[2]: This group contains a span_kind field but the type is not set to span."
            );
        },
        _ => panic!("expected an invalid catalog"),
    }
    // Nothing was added: resolving an empty catalog succeeds with no warning.
    assert_eq!(catalog.resolve(ResolverConfig::default()).ok().unwrap().len(), 0);
}

#[test]
fn validate_group_rules() {
    let mut g = group("g", ConvType::Span, "", vec![]);
    assert!(validate_group(&g).is_ok());
    g.deprecated = Some("old".to_string());
    g.stability = Some(Stability::Stable);
    assert_eq!(
        validate_group(&g).err().unwrap().code,
        "This group contains a deprecated field but the stability is not set to deprecated."
    );
    g.stability = Some(Stability::Deprecated);
    assert!(validate_group(&g).is_ok());

    let mut e = group("e", ConvType::Event, "", vec![]);
    assert_eq!(
        validate_group(&e).err().unwrap().code,
        "This group contains an event type but the prefix is empty and the name is not set."
    );
    e.name = Some("event".to_string());
    assert!(validate_group(&e).is_ok());

    let mut r = group("r", ConvType::Resource, "", vec![]);
    r.events = vec!["x".to_string()];
    assert_eq!(
        validate_group(&r).err().unwrap().code,
        "This group contains an events field but the type is not set to span."
    );

    let mut m = metric_group("m", "m", None, vec![]);
    assert!(validate_group(&m).is_ok());
    m.unit = None;
    assert_eq!(validate_group(&m).err().unwrap().code, "This group contains a metric type but the unit is not set.");
    m.instrument = None;
    assert_eq!(
        validate_group(&m).err().unwrap().code,
        "This group contains a metric type but the instrument is not set."
    );
}

#[test]
fn validation_message_lists_each_group() {
    let errs = vec![
        (0usize, ValidationError { code: "first".to_string() }),
        (12usize, ValidationError { code: "second".to_string() }),
    ];
    assert_eq!(validation_message(&errs), "groups[0]: first\ngroups[12]: second");
    assert_eq!(validation_message(&vec![]), "");
}

#[test]
fn catalog_error_texts() {
    let e = Error::CatalogNotFound { path_or_url: "a.yaml".to_string(), error: "gone".to_string() };
    assert_eq!(e.to_text(), "Semantic convention catalog \"a.yaml\" not found\n\"gone\"");
    let e = Error::InvalidCatalog { path_or_url: "a.yaml".to_string(), line: Some(3), column: None, error: "bad".to_string() };
    assert_eq!(e.to_text(), "Invalid semantic convention catalog \"a.yaml\"\n\"bad\"");
    let e = Error::DuplicateGroupId { path_or_url: "b".to_string(), id: "g".to_string(), origin: "a".to_string() };
    assert_eq!(e.to_text(), "Duplicate group id `g` detected while loading \"b\" and already defined in \"a\"");
    let e = Error::AttributeNotFound { reference: "r".to_string() };
    assert_eq!(e.to_text(), "Attribute reference `r` not found.");
    let e = Error::DuplicateAttributeId { path_or_url: "b".to_string(), id: "i".to_string() };
    assert_eq!(e.to_text(), "Duplicate attribute id `i` detected while loading \"b\"");
    let e = Error::DuplicateMetricName { path_or_url: "b".to_string(), name: "m".to_string() };
    assert_eq!(e.to_text(), "Duplicate metric name `m` detected while loading \"b\"");
    let e = Error::InvalidAttribute { path_or_url: "p".to_string(), group_id: "g".to_string(), error: "e".to_string() };
    assert_eq!(e.to_text(), "Invalid attribute definition detected while resolving \"p\", group_id=`g`.\n\"e\"");
    let e = Error::InvalidMetric { path_or_url: "p".to_string(), group_id: "g".to_string(), error: "e".to_string() };
    assert_eq!(e.to_text(), "Invalid metric definition detected while resolving \"p\", group_id=`g`.\n\"e\"");
}

#[test]
fn resolver_config_default_is_strict() {
    assert!(ResolverConfig::default().error_when_attribute_ref_not_found);
    assert_eq!(ConvType::default(), ConvType::Span);
}

#[test]
fn metrics_inherit_from_the_convention_they_extend() {
    let mut catalog = SemConvCatalog::new();
    let spec = SemConvSpec {
        groups: vec![
            group("registry.http", ConvType::AttributeGroup, "http", vec![def("method", ""), def("url", "")]),
            metric_group("metric.http.duration", "http.duration", Some("registry.http"), vec![def("route", "")]),
            metric_group("metric.http.size", "http.size", Some("http.duration"), vec![def("size", "")]),
        ],
    };
    assert!(catalog.add_spec("m.yaml".to_string(), spec).is_ok());
    assert!(catalog.resolve(ResolverConfig::default()).is_ok());
    let duration = catalog.get_metric("http.duration").unwrap();
    let ids: Vec<String> = duration.attributes.iter().map(|a| a.id()).collect();
    assert_eq!(ids, vec!["route", "method", "url"]);
    // `extends` names a group id, not a metric name: nothing is inherited here.
    assert_eq!(catalog.get_metric("http.size").unwrap().attributes.len(), 1);
}

#[test]
fn groups_without_attributes_are_recorded() {
    let mut catalog = SemConvCatalog::new();
    let spec = SemConvSpec {
        groups: vec![
            group("span.empty", ConvType::Span, "", vec![]),
            group("span.empty", ConvType::Event, "e", vec![]),
        ],
    };
    assert!(catalog.add_spec("e.yaml".to_string(), spec).is_ok());
    assert!(catalog.resolve(ResolverConfig::default()).is_ok());
    assert_eq!(catalog.get_attributes("span.empty", ConvType::Span).ok().unwrap().len(), 0);
    assert_eq!(catalog.get_attributes("span.empty", ConvType::Event).ok().unwrap().len(), 0);
    assert!(catalog.get_attributes("span.empty", ConvType::Resource).is_err());

    let mut dup = SemConvCatalog::new();
    let spec = SemConvSpec {
        groups: vec![group("g", ConvType::Span, "", vec![]), group("g", ConvType::Span, "", vec![])],
    };
    assert!(dup.add_spec("d.yaml".to_string(), spec).is_ok());
    assert!(matches!(dup.resolve(ResolverConfig::default()), Err(Error::DuplicateGroupId { .. })));
}
