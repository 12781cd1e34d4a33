//! Metrics of a telemetry schema: univariate metrics and metric groups.
use vstd::prelude::*;
use crate::schema::attribute::{Attribute, AttributeView, opt_tags, schema_attrs_view};
use crate::semconv::attribute::opt_text;
use crate::semconv::group::Instrument;
use crate::tags::Tags;

verus! {

/// A univariate metric: a reference to a metric of the semantic conventions,
/// or a metric definition.
pub enum UnivariateMetric {
    /// A reference to a metric.
    Ref {
        /// The reference to the metric.
        reference: String,
        /// The attributes of the metric.
        attributes: Vec<Attribute>,
        /// A set of tags for the metric.
        tags: Option<Tags>,
    },
    /// A metric definition.
    Metric {
        /// Metric name.
        name: String,
        /// Brief description of the metric.
        brief: String,
        /// Note on the metric.
        note: String,
        /// Attributes of the metric.
        attributes: Vec<Attribute>,
        /// Type of the metric (e.g. gauge, histogram, ...).
        instrument: Option<Instrument>,
        /// Unit of the metric.
        unit: Option<String>,
        /// A set of tags for the metric.
        tags: Option<Tags>,
    },
}

/// A group of metrics that share their attributes.
pub struct MetricGroup {
    /// The name of the metric group.
    pub id: String,
    /// The attributes shared by the metrics of the group.
    pub attributes: Vec<Attribute>,
    /// The metrics of the group.
    pub metrics: Vec<Metric>,
    /// A set of tags for the metric group.
    pub tags: Option<Tags>,
}

/// A metric of a metric group: a reference to a metric of the semantic
/// conventions, or a metric definition.
pub enum Metric {
    /// A reference to a metric.
    Ref {
        /// The reference to the metric.
        reference: String,
        /// A set of tags for the metric.
        tags: Option<Tags>,
    },
    /// A metric definition.
    Metric {
        /// Metric name.
        name: String,
        /// Brief description of the metric.
        brief: String,
        /// Note on the metric.
        note: String,
        /// Attributes of the metric.
        attributes: Vec<Attribute>,
        /// Type of the metric.
        instrument: Option<Instrument>,
        /// Unit of the metric.
        unit: Option<String>,
        /// A set of tags for the metric.
        tags: Option<Tags>,
    },
}

/// The metrics of a resource.
pub struct ResourceMetrics {
    /// Common attributes shared across metrics and metric groups.
    pub attributes: Vec<Attribute>,
    /// Definitions of all metrics this application or library generates.
    pub metrics: Vec<UnivariateMetric>,
    /// Definitions of all metric groups this application or library generates.
    pub metric_groups: Vec<MetricGroup>,
    /// A set of tags for the resource metrics.
    pub tags: Option<Tags>,
}

/// The content of a univariate metric.
pub enum UnivariateMetricView {
    /// A reference to a metric.
    Ref { reference: Seq<char>, attributes: Seq<AttributeView>, tags: Option<Map<Seq<char>, Seq<char>>> },
    /// A metric definition.
    Metric {
        name: Seq<char>,
        brief: Seq<char>,
        note: Seq<char>,
        attributes: Seq<AttributeView>,
        instrument: Option<Instrument>,
        unit: Option<Seq<char>>,
        tags: Option<Map<Seq<char>, Seq<char>>>,
    },
}

/// The content of a metric of a metric group.
pub enum MetricView {
    /// A reference to a metric.
    Ref { reference: Seq<char>, tags: Option<Map<Seq<char>, Seq<char>>> },
    /// A metric definition.
    Metric {
        name: Seq<char>,
        brief: Seq<char>,
        note: Seq<char>,
        attributes: Seq<AttributeView>,
        instrument: Option<Instrument>,
        unit: Option<Seq<char>>,
        tags: Option<Map<Seq<char>, Seq<char>>>,
    },
}

/// The content of a metric group.
pub struct MetricGroupView {
    /// The name of the group.
    pub id: Seq<char>,
    /// The shared attributes.
    pub attributes: Seq<AttributeView>,
    /// The metrics.
    pub metrics: Seq<MetricView>,
    /// The tags.
    pub tags: Option<Map<Seq<char>, Seq<char>>>,
}

/// The content of the metrics of a resource.
pub struct ResourceMetricsView {
    /// The common attributes.
    pub attributes: Seq<AttributeView>,
    /// The univariate metrics.
    pub metrics: Seq<UnivariateMetricView>,
    /// The metric groups.
    pub metric_groups: Seq<MetricGroupView>,
    /// The tags.
    pub tags: Option<Map<Seq<char>, Seq<char>>>,
}

impl View for UnivariateMetric {
    type V = UnivariateMetricView;

    open spec fn view(&self) -> UnivariateMetricView {
        match self {
            UnivariateMetric::Ref { reference, attributes, tags } => UnivariateMetricView::Ref {
                reference: reference@,
                attributes: schema_attrs_view(attributes@),
                tags: opt_tags(*tags),
            },
            UnivariateMetric::Metric { name, brief, note, attributes, instrument, unit, tags } =>
                UnivariateMetricView::Metric {
                name: name@,
                brief: brief@,
                note: note@,
                attributes: schema_attrs_view(attributes@),
                instrument: *instrument,
                unit: opt_text(*unit),
                tags: opt_tags(*tags),
            },
        }
    }
}

impl View for Metric {
    type V = MetricView;

    open spec fn view(&self) -> MetricView {
        match self {
            Metric::Ref { reference, tags } => MetricView::Ref { reference: reference@, tags: opt_tags(*tags) },
            Metric::Metric { name, brief, note, attributes, instrument, unit, tags } => MetricView::Metric {
                name: name@,
                brief: brief@,
                note: note@,
                attributes: schema_attrs_view(attributes@),
                instrument: *instrument,
                unit: opt_text(*unit),
                tags: opt_tags(*tags),
            },
        }
    }
}

impl View for MetricGroup {
    type V = MetricGroupView;

    open spec fn view(&self) -> MetricGroupView {
        MetricGroupView {
            id: self.id@,
            attributes: schema_attrs_view(self.attributes@),
            metrics: self.metrics@.map_values(|m: Metric| m@),
            tags: opt_tags(self.tags),
        }
    }
}

impl View for ResourceMetrics {
    type V = ResourceMetricsView;

    open spec fn view(&self) -> ResourceMetricsView {
        ResourceMetricsView {
            attributes: schema_attrs_view(self.attributes@),
            metrics: self.metrics@.map_values(|m: UnivariateMetric| m@),
            metric_groups: self.metric_groups@.map_values(|g: MetricGroup| g@),
            tags: opt_tags(self.tags),
        }
    }
}

} // verus!
