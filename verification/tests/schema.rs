use weaver::resolver::{Error as ResolverError, ParentSource, SchemaResolver};
use weaver::schema::metric::{MetricGroup, ResourceMetrics, UnivariateMetric};
use weaver::schema::spec::{Event, ResourceEvents, ResourceSpans, SchemaSpec, Span};
use weaver::schema::{parse_url, Error, SchemaSource, TelemetrySchema};

#[test]
fn parse_url_splits_scheme_and_path() {
    let u = parse_url("https://opentelemetry.io/schemas/1.21.0").ok().unwrap();
    assert_eq!(u.scheme, "https");
    assert_eq!(u.path, "/schemas/1.21.0");
    assert_eq!(u.text, "https://opentelemetry.io/schemas/1.21.0");
    let f = parse_url("file:///tmp/schema.yaml").ok().unwrap();
    assert_eq!(f.scheme, "file");
    assert_eq!(f.path, "/tmp/schema.yaml");
    assert!(parse_url("not a url").is_err());
}

#[test]
fn load_source_by_scheme() {
    let http = parse_url("http://example.com/schema.yaml").ok().unwrap();
    match TelemetrySchema::load_source(&http) {
        Ok(SchemaSource::Http(u)) => assert_eq!(u, "http://example.com/schema.yaml"),
        _ => panic!("expected an http source"),
    }
    let file = parse_url("file:///data/schema.yaml").ok().unwrap();
    match TelemetrySchema::load_source(&file) {
        Ok(SchemaSource::File(p)) => assert_eq!(p, "/data/schema.yaml"),
        _ => panic!("expected a file source"),
    }
    let ftp = parse_url("ftp://example.com/schema.yaml").ok().unwrap();
    match TelemetrySchema::load_source(&ftp) {
        Err(e) => {
            assert_eq!(e.to_text(), "Schema \"ftp://example.com/schema.yaml\" not found\n\"Unsupported URL scheme: ftp\"");
            match e {
                Error::SchemaNotFound { path_or_url, error } => {
                    assert_eq!(path_or_url, "ftp://example.com/schema.yaml");
                    assert_eq!(error, "Unsupported URL scheme: ftp");
                },
                _ => panic!("expected schema not found"),
            }
        },
        Ok(_) => panic!("expected an error"),
    }
}

#[test]
fn parent_schema_source_url_or_file() {
    match SchemaResolver::parent_schema_source(&"https://opentelemetry.io/schemas/1.21.0".to_string()) {
        Ok(ParentSource::Url(u)) => {
            assert_eq!(u.scheme, "https");
            assert_eq!(u.path, "/schemas/1.21.0");
        },
        _ => panic!("expected a URL"),
    }
    match SchemaResolver::parent_schema_source(&"file:///tmp/parent.yaml".to_string()) {
        Ok(ParentSource::Url(u)) => assert_eq!(u.scheme, "file"),
        _ => panic!("expected a URL"),
    }
    match SchemaResolver::parent_schema_source(&"data/parent.yaml".to_string()) {
        Ok(ParentSource::File(p)) => assert_eq!(p, "data/parent.yaml"),
        _ => panic!("expected a file"),
    }
    match SchemaResolver::parent_schema_source(&"http://[::1".to_string()) {
        Err(ResolverError::InvalidUrl { url, error }) => {
            assert_eq!(url, "http://[::1");
            assert!(!error.is_empty());
        },
        _ => panic!("expected an invalid URL"),
    }
}

#[test]
fn schema_error_texts() {
    let e = Error::InvalidSchema { path_or_url: "s.yaml".to_string(), line: Some(1), column: Some(2), error: "bad".to_string() };
    assert_eq!(e.to_text(), "Invalid schema \"s.yaml\"\n\"bad\"");
    let e = Error::InvalidAttribute { id: "a.b".to_string(), error: "oops".to_string() };
    assert_eq!(e.to_text(), "Invalid attribute `\"a.b\"`\n\"oops\"");
}

fn univariate(name: &str, brief: &str) -> UnivariateMetric {
    UnivariateMetric::Metric {
        name: name.to_string(),
        brief: brief.to_string(),
        note: String::new(),
        attributes: vec![],
        instrument: None,
        unit: None,
        tags: None,
    }
}

fn span(name: &str) -> Span {
    Span { span_name: name.to_string(), kind: None, attributes: vec![], events: vec![], links: vec![], tags: None }
}

fn event(name: &str, domain: &str) -> Event {
    Event { event_name: name.to_string(), domain: domain.to_string(), attributes: vec![], tags: None }
}

#[test]
fn schema_spec_lookups() {
    let empty = SchemaSpec {
        tags: None,
        resource: None,
        instrumentation_library: None,
        resource_metrics: None,
        resource_events: None,
        resource_spans: None,
    };
    assert!(empty.metric("m").is_none());
    assert!(empty.metric_group("g").is_none());
    assert!(empty.metrics().is_empty());
    assert!(empty.metric_groups().is_empty());
    assert!(empty.events().is_empty());
    assert!(empty.spans().is_empty());
    assert!(empty.event("e").is_none());
    assert!(empty.span("s").is_none());

    let schema = SchemaSpec {
        tags: None,
        resource: None,
        instrumentation_library: None,
        resource_metrics: Some(ResourceMetrics {
            attributes: vec![],
            metrics: vec![
                univariate("a", "first a"),
                UnivariateMetric::Ref { reference: "b".to_string(), attributes: vec![], tags: None },
                univariate("a", "second a"),
            ],
            metric_groups: vec![MetricGroup { id: "g".to_string(), attributes: vec![], metrics: vec![], tags: None }],
            tags: None,
        }),
        resource_events: Some(ResourceEvents {
            attributes: vec![],
            events: vec![event("e1", "d1"), event("e1", "d2"), event("e2", "d3")],
            tags: None,
        }),
        resource_spans: Some(ResourceSpans { attributes: vec![], spans: vec![span("s1"), span("s2")], tags: None }),
    };
    match schema.metric("a") {
        Some(UnivariateMetric::Metric { brief, .. }) => assert_eq!(brief, "first a"),
        _ => panic!("expected the first metric named a"),
    }
    assert!(matches!(schema.metric("b"), Some(UnivariateMetric::Ref { .. })));
    assert!(schema.metric("c").is_none());
    assert_eq!(schema.metric_group("g").unwrap().id, "g");
    assert!(schema.metric_group("h").is_none());
    assert_eq!(schema.metrics().len(), 3);
    assert_eq!(schema.metric_groups().len(), 1);
    assert_eq!(schema.events().iter().map(|e| e.domain.clone()).collect::<Vec<_>>(), vec!["d1", "d2", "d3"]);
    assert_eq!(schema.event("e1").unwrap().domain, "d1");
    assert_eq!(schema.event("e2").unwrap().domain, "d3");
    assert!(schema.event("e3").is_none());
    assert_eq!(schema.spans().len(), 2);
    assert_eq!(schema.span("s2").unwrap().span_name, "s2");
    assert!(schema.span("s3").is_none());
}
