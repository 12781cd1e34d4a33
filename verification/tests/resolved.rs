use weaver::resolved::attribute::{same_attribute, Attribute, AttributeType, Example};
use weaver::resolved::catalog::{Catalog, Metric};
use weaver::resolved::ResolvedTelemetrySchema;
use weaver::semconv::group::Instrument;
use weaver::tags::Tags;

fn boolean_attribute() -> Attribute {
    Attribute {
        name: "".to_string(),
        attr_type: AttributeType::Boolean,
        brief: "".to_string(),
        examples: Some(Example::Double { value: 0.0f64.to_bits() }),
        tag: None,
        requirement_level: None,
        sampling_relevant: Some(false),
        note: None,
        stability: None,
        deprecated: None,
        tags: Some(Tags::new()),
        value: None,
    }
}

#[test]
fn test() {
    let schema = ResolvedTelemetrySchema {
        file_format: "weaver".to_string(),
        schema_url: "https://schema.weaver.org".to_string(),
        registries: vec![],
        catalog: Catalog {
            attributes: vec![boolean_attribute()],
            metrics: vec![Metric {
                name: "metric1".to_string(),
                brief: "brief blabla".to_string(),
                note: "note blabla".to_string(),
                instrument: Instrument::Counter,
                unit: Some("1".to_string()),
                tags: Some(Tags::new()),
            }],
        },
        resource: None,
        instrumentation_library: None,
        dependencies: vec![],
        versions: None,
    };
    assert_eq!(schema.catalog.attributes.len(), 1);
    assert_eq!(schema.catalog.metrics[0].name, "metric1");
}

#[test]
fn same_attribute_compares_every_field() {
    let a = boolean_attribute();
    assert!(same_attribute(&a, &boolean_attribute()));
    let mut b = boolean_attribute();
    b.brief = "other".to_string();
    assert!(!same_attribute(&a, &b));
    let mut c = boolean_attribute();
    c.examples = Some(Example::Double { value: 1.5f64.to_bits() });
    assert!(!same_attribute(&a, &c));
    let mut d = boolean_attribute();
    let mut tags = Tags::new();
    tags.insert("k".to_string(), "v".to_string());
    d.tags = Some(tags);
    assert!(!same_attribute(&a, &d));
    let mut e = boolean_attribute();
    e.attr_type = AttributeType::Enum { allow_custom_values: true, members: vec![] };
    assert!(!same_attribute(&a, &e));
}
