use weaver::text_map::TextMap;
use weaver::version::{
    Category, Error, LogsChange, LogsVersion, MetricsChange, MetricsVersion, RenameAttributes, ResourceChange,
    ResourceVersion, SpansChange, SpansVersion, Version, VersionSpec, Versions,
};

fn renames(pairs: &[(&str, &str)]) -> TextMap {
    let mut m = TextMap::new();
    for (old, new) in pairs {
        m.insert(old.to_string(), new.to_string());
    }
    m
}

fn spec(
    resources: &[(&str, &str)],
    metrics: &[(&str, &str)],
    logs: &[(&str, &str)],
    spans: &[(&str, &str)],
) -> VersionSpec {
    VersionSpec {
        resources: if resources.is_empty() {
            None
        } else {
            Some(ResourceVersion {
                changes: vec![ResourceChange { rename_attributes: RenameAttributes { attribute_map: renames(resources) } }],
            })
        },
        metrics: if metrics.is_empty() {
            None
        } else {
            Some(MetricsVersion { changes: vec![MetricsChange { rename_metrics: renames(metrics) }] })
        },
        logs: if logs.is_empty() {
            None
        } else {
            Some(LogsVersion {
                changes: vec![LogsChange { rename_attributes: RenameAttributes { attribute_map: renames(logs) } }],
            })
        },
        spans: if spans.is_empty() {
            None
        } else {
            Some(SpansVersion {
                changes: vec![SpansChange { rename_attributes: RenameAttributes { attribute_map: renames(spans) } }],
            })
        },
    }
}

fn v(s: &str) -> Version {
    Version::parse(s).ok().unwrap()
}

/// A history of renamings in the manner of the OpenTelemetry semantic
/// conventions, inserted out of order.
fn parent_versions() -> Versions {
    let mut versions = Versions::new();
    versions.insert(
        v("1.21.0"),
        spec(
            &[],
            &[("process.runtime.jvm.cpu.utilization", "process.runtime.jvm.cpu.recent_utilization")],
            &[],
            &[("messaging.kafka.client_id", "messaging.client_id")],
        ),
    );
    versions.insert(
        v("1.19.0"),
        spec(
            &[("browser.user_agent", "user_agent.original")],
            &[],
            &[],
            &[("http.user_agent", "user_agent.original"), ("faas.id", "cloud.resource_id")],
        ),
    );
    versions.insert(
        v("1.20.0"),
        spec(
            &[],
            &[],
            &[],
            &[
                ("http.method", "http.request.method"),
                ("http.url", "url.full"),
                ("net.app.protocol.name", "net.protocol.name"),
            ],
        ),
    );
    versions.insert(v("1.7.0"), spec(&[], &[], &[], &[("db.cassandra.keyspace", "db.cassandra.ks")]));
    versions.insert(
        v("1.8.0"),
        spec(&[], &[], &[], &[("db.cassandra.keyspace", "db.name"), ("db.hbase.namespace", "db.name")]),
    );
    versions.insert(v("1.4.0"), spec(&[], &[], &[("old.log", "new.log")], &[]));
    versions
}

fn app_versions() -> Versions {
    let mut versions = Versions::new();
    versions.insert(v("1.22.0"), spec(&[], &[], &[], &[("messaging.kafka.client_id", "messaging.client.id")]));
    versions.insert(
        v("1.8.0"),
        spec(&[("db.cassandra.db", "database.name")], &[], &[], &[("db.cassandra.keyspace", "database.name")]),
    );
    versions.insert(v("1.7.1"), spec(&[], &[], &[], &[("db.cassandra.table", "database.table")]));
    versions
}

#[test]
fn test_ordering() {
    let versions = parent_versions();
    let mut version = None;

    for (v, _) in versions.versions_asc() {
        if version.is_some() {
            assert!(v > version.unwrap());
        }
        version = Some(v);
    }

    let mut version = None;

    for (v, _) in versions.versions_desc() {
        if version.is_some() {
            assert!(v < version.unwrap());
        }
        version = Some(v);
    }
}

#[test]
fn test_version_changes_for() {
    let versions = parent_versions();
    let changes = versions.version_changes_for(versions.latest_version().unwrap());

    // Test renaming of resource attributes
    assert_eq!("user_agent.original", changes.get_resource_attribute_name("browser.user_agent"));

    // Test renaming of metric names
    assert_eq!(
        "process.runtime.jvm.cpu.recent_utilization",
        changes.get_metric_name("process.runtime.jvm.cpu.utilization")
    );

    // Test renaming of span attributes
    assert_eq!("user_agent.original", changes.get_span_attribute_name("http.user_agent"));
    assert_eq!("http.request.method", changes.get_span_attribute_name("http.method"));
    assert_eq!("url.full", changes.get_span_attribute_name("http.url"));
    assert_eq!("net.protocol.name", changes.get_span_attribute_name("net.app.protocol.name"));
    assert_eq!("cloud.resource_id", changes.get_span_attribute_name("faas.id"));
    assert_eq!("db.name", changes.get_span_attribute_name("db.hbase.namespace"));
    assert_eq!("db.name", changes.get_span_attribute_name("db.cassandra.keyspace"));
}

#[test]
fn test_override() {
    let parent_versions = parent_versions();
    let mut app_versions = app_versions();

    // Update `app_version` to extend `parent_versions`
    app_versions.extend(parent_versions);

    // Transformations defined in `app_versions` masking or complementing
    // `parent_versions`
    let v1_22 = app_versions.get(&v("1.22.0")).unwrap();
    let observed_value = v1_22.spans.as_ref().unwrap().changes[0].rename_attributes.attribute_map.get("messaging.kafka.client_id");
    assert_eq!(observed_value, Some(&"messaging.client.id".to_string()));

    let v1_8 = app_versions.get(&v("1.8.0")).unwrap();
    let observed_value = v1_8.spans.as_ref().unwrap().changes[0].rename_attributes.attribute_map.get("db.cassandra.keyspace");
    assert_eq!(observed_value, Some(&"database.name".to_string()));
    let observed_value = v1_8.resources.as_ref().unwrap().changes[0].rename_attributes.attribute_map.get("db.cassandra.db");
    assert_eq!(observed_value, Some(&"database.name".to_string()));

    let v1_7_1 = app_versions.get(&v("1.7.1")).unwrap();
    let observed_value = v1_7_1.spans.as_ref().unwrap().changes[0].rename_attributes.attribute_map.get("db.cassandra.table");
    assert_eq!(observed_value, Some(&"database.table".to_string()));

    // Transformations inherited from `parent_versions` and initially not
    // present in `app_versions`
    let v1_21 = app_versions.get(&v("1.21.0")).unwrap();
    let observed_value = v1_21.metrics.as_ref().unwrap().changes[0].rename_metrics.get("process.runtime.jvm.cpu.utilization");
    assert_eq!(observed_value, Some(&"process.runtime.jvm.cpu.recent_utilization".to_string()));
    let observed_value = v1_21.spans.as_ref().unwrap().changes[0].rename_attributes.attribute_map.get("messaging.kafka.client_id");
    assert_eq!(observed_value, Some(&"messaging.client_id".to_string()));
}

#[test]
fn version_parse_reads_semantic_versions() {
    let parsed = Version::parse("1.22.3").ok().unwrap();
    assert_eq!(parsed, Version { major: 1, minor: 22, patch: 3 });
    assert!(matches!(Version::parse("1.2.3-alpha"), Err(Error::InvalidVersion { .. })));
    assert!(matches!(Version::parse("1.2.3+build5"), Err(Error::InvalidVersion { .. })));
    match Version::parse("not a version") {
        Err(Error::InvalidVersion { version, .. }) => assert_eq!(version, "not a version"),
        _ => panic!("expected an invalid version"),
    }
    assert!(Version::parse("1.2").is_err());
}

#[test]
fn version_precedence() {
    assert!(v("1.2.3").lt(&v("1.10.0")));
    assert!(v("1.2.3").lt(&v("1.2.4")));
    assert!(v("0.9.9").lt(&v("1.0.0")));
    assert!(!v("1.2.3").lt(&v("1.2.3")));
    assert!(v("1.2.3").same(&v("1.2.3")));
    assert!(!v("1.2.3").same(&v("1.2.4")));
}

#[test]
fn versions_latest_and_ranges() {
    let versions = parent_versions();
    assert_eq!(versions.len(), 6);
    assert_eq!(*versions.latest_version().unwrap(), v("1.21.0"));
    assert!(Versions::new().latest_version().is_none());
    let asc: Vec<Version> = versions.versions_asc_from(&v("1.19.0")).iter().map(|(k, _)| **k).collect();
    assert_eq!(asc, vec![v("1.19.0"), v("1.20.0"), v("1.21.0")]);
    let asc: Vec<Version> = versions.versions_asc_from(&v("1.18.5")).iter().map(|(k, _)| **k).collect();
    assert_eq!(asc, vec![v("1.19.0"), v("1.20.0"), v("1.21.0")]);
    let desc: Vec<Version> = versions.versions_desc_from(&v("1.8.0")).iter().map(|(k, _)| **k).collect();
    assert_eq!(desc, vec![v("1.8.0"), v("1.7.0"), v("1.4.0")]);
    let desc: Vec<Version> = versions.versions_desc_from(&v("1.7.5")).iter().map(|(k, _)| **k).collect();
    assert_eq!(desc, vec![v("1.7.0"), v("1.4.0")]);
}

#[test]
fn version_changes_newest_renaming_wins() {
    let versions = parent_versions();
    // At 1.7.0 only the older renaming is in force.
    let at_1_7 = versions.version_changes_for(&v("1.7.0"));
    assert_eq!(at_1_7.get_span_attribute_name("db.cassandra.keyspace"), "db.cassandra.ks");
    assert_eq!(at_1_7.get_span_attribute_name("http.method"), "http.method");
    assert_eq!(at_1_7.get_log_attribute_name("old.log"), "new.log");
    // Later, the newer renaming replaces it.
    let at_1_8 = versions.version_changes_for(&v("1.8.0"));
    assert_eq!(at_1_8.get_span_attribute_name("db.cassandra.keyspace"), "db.name");
    assert_eq!(at_1_8.get_attribute_name(Category::Spans, "db.hbase.namespace"), "db.name");
    assert_eq!(at_1_8.get_attribute_name(Category::Logs, "old.log"), "new.log");
    assert_eq!(at_1_8.get_attribute_name(Category::Metrics, "unknown"), "unknown");
}

#[test]
fn version_spec_extend_keeps_local_renamings() {
    let mut local = spec(&[("a", "local.a")], &[], &[], &[]);
    let parent = spec(&[("a", "parent.a"), ("b", "parent.b")], &[("m", "n")], &[], &[]);
    local.extend(parent);
    let resources = local.resources.as_ref().unwrap();
    assert_eq!(resources.changes.len(), 2);
    assert_eq!(resources.changes[0].rename_attributes.attribute_map.get("a").unwrap(), "local.a");
    assert!(resources.changes[1].rename_attributes.attribute_map.get("a").is_none());
    assert_eq!(resources.changes[1].rename_attributes.attribute_map.get("b").unwrap(), "parent.b");
    let metrics = local.metrics.as_ref().unwrap();
    assert_eq!(metrics.changes.len(), 1);
    assert_eq!(metrics.changes[0].rename_metrics.get("m").unwrap(), "n");
    assert!(local.logs.is_none());
    assert!(local.spans.is_none());
}
