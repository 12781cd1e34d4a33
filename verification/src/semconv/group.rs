//! A group specification.
use vstd::prelude::*;
use crate::semconv::attribute::{Attribute, AttributeView, attrs_view, opt_text, texts};
use crate::semconv::stability::Stability;

verus! {

/// The different types of groups.
#[derive(Clone, Copy, Debug, PartialEq, Eq, Structural)]
pub enum ConvType {
    /// Attribute group (attribute_group type) defines a set of attributes that
    /// can be declared once and referenced by semantic conventions for
    /// different signals, for example spans and logs.
    AttributeGroup,
    /// Span semantic convention.
    Span,
    /// Event semantic convention.
    Event,
    /// Metric semantic convention.
    Metric,
    /// The metric group semconv is a group where related metric attributes can
    /// be defined and then referenced from other metric groups using ref.
    MetricGroup,
    /// A group of resources.
    Resource,
    /// Scope.
    Scope,
}

impl Default for ConvType {
    /// Returns the default convention type that is span based on
    /// the OpenTelemetry specification.
    fn default() -> (r: Self)
        ensures
            r == ConvType::Span,
    {
        ConvType::Span
    }
}

/// The span kind.
#[derive(Clone, Copy, Debug, PartialEq, Eq, Structural)]
pub enum SpanKind {
    /// A client span.
    Client,
    /// A server span.
    Server,
}

/// A constraint.
pub struct Constraint {
    /// A any_of constraint.
    pub any_of: Vec<String>,
    /// The id of a semantic convention whose constraints and required
    /// attributes are taken in.
    pub includes: Option<String>,
}

/// The type of the metric.
#[derive(Clone, Copy, Debug, PartialEq, Eq, Structural)]
pub enum Instrument {
    /// An up-down counter metric.
    UpDownCounter,
    /// A counter metric.
    Counter,
    /// A gauge metric.
    Gauge,
    /// A histogram metric.
    Histogram,
}

/// Groups contain the list of semantic conventions and it is the root node of
/// each yaml file.
pub struct Group {
    /// The id that uniquely identifies the semantic convention.
    pub id: String,
    /// The type of the semantic convention (default to span).
    pub group_type: ConvType,
    /// A brief description of the semantic convention.
    pub brief: String,
    /// A more elaborate description of the semantic convention.
    pub note: String,
    /// Prefix for the attributes for this semantic convention.
    pub prefix: String,
    /// Reference another semantic convention id.
    pub extends: Option<String>,
    /// Specifies the stability of the semantic convention.
    pub stability: Option<Stability>,
    /// Specifies if the semantic convention is deprecated.
    pub deprecated: Option<String>,
    /// List of attributes that belong to the semantic convention.
    pub attributes: Vec<Attribute>,
    /// Additional constraints.
    pub constraints: Vec<Constraint>,
    /// Specifies the kind of the span (only valid if type is span).
    pub span_kind: Option<SpanKind>,
    /// Ids of event semantic conventions associated with this span semantic
    /// convention (only valid if type is span).
    pub events: Vec<String>,
    /// The metric name (required if type is metric).
    pub metric_name: Option<String>,
    /// The instrument type used to record the metric (required if type is metric).
    pub instrument: Option<Instrument>,
    /// The unit in which the metric is measured (required if type is metric).
    pub unit: Option<String>,
    /// The name of the event. If not specified, the prefix is used.
    pub name: Option<String>,
}

/// The content of a constraint.
pub struct ConstraintView {
    /// A any_of constraint.
    pub any_of: Seq<Seq<char>>,
    /// The id of a semantic convention taken in.
    pub includes: Option<Seq<char>>,
}

impl View for Constraint {
    type V = ConstraintView;

    open spec fn view(&self) -> ConstraintView {
        ConstraintView { any_of: texts(self.any_of@), includes: opt_text(self.includes) }
    }
}

/// The content of a group.
pub struct GroupView {
    /// The id of the group.
    pub id: Seq<char>,
    /// The type of the group.
    pub group_type: ConvType,
    /// A brief description.
    pub brief: Seq<char>,
    /// A more elaborate description.
    pub note: Seq<char>,
    /// Prefix for the attributes.
    pub prefix: Seq<char>,
    /// The referenced semantic convention.
    pub extends: Option<Seq<char>>,
    /// The stability.
    pub stability: Option<Stability>,
    /// The deprecation note.
    pub deprecated: Option<Seq<char>>,
    /// The attributes.
    pub attributes: Seq<AttributeView>,
    /// The constraints.
    pub constraints: Seq<ConstraintView>,
    /// The span kind.
    pub span_kind: Option<SpanKind>,
    /// The events.
    pub events: Seq<Seq<char>>,
    /// The metric name.
    pub metric_name: Option<Seq<char>>,
    /// The instrument.
    pub instrument: Option<Instrument>,
    /// The unit.
    pub unit: Option<Seq<char>>,
    /// The name of the event.
    pub name: Option<Seq<char>>,
}

impl View for Group {
    type V = GroupView;

    open spec fn view(&self) -> GroupView {
        GroupView {
            id: self.id@,
            group_type: self.group_type,
            brief: self.brief@,
            note: self.note@,
            prefix: self.prefix@,
            extends: opt_text(self.extends),
            stability: self.stability,
            deprecated: opt_text(self.deprecated),
            attributes: attrs_view(self.attributes@),
            constraints: self.constraints@.map_values(|c: Constraint| c@),
            span_kind: self.span_kind,
            events: texts(self.events@),
            metric_name: opt_text(self.metric_name),
            instrument: self.instrument,
            unit: opt_text(self.unit),
            name: opt_text(self.name),
        }
    }
}

/// The reason why a group is invalid.
pub struct ValidationError {
    /// The description of the problem.
    pub code: String,
}

/// The first rule of a group's well-formedness that the group breaks, as the
/// text of the reason, or `None` when the group is valid.
pub open spec fn group_violation(g: Group) -> Option<Seq<char>> {
    if g.deprecated is Some && g.stability is Some && g.stability != Some(Stability::Deprecated) {
        Some("This group contains a deprecated field but the stability is not set to deprecated."@)
    } else if g.group_type != ConvType::Span && g.span_kind is Some {
        Some("This group contains a span_kind field but the type is not set to span."@)
    } else if g.group_type != ConvType::Span && g.events@.len() != 0 {
        Some("This group contains an events field but the type is not set to span."@)
    } else if g.group_type == ConvType::Event && g.prefix@.len() == 0 && g.name is None {
        Some("This group contains an event type but the prefix is empty and the name is not set."@)
    } else if g.group_type == ConvType::Metric && g.metric_name is None {
        Some("This group contains a metric type but the metric_name is not set."@)
    } else if g.group_type == ConvType::Metric && g.instrument is None {
        Some("This group contains a metric type but the instrument is not set."@)
    } else if g.group_type == ConvType::Metric && g.unit is None {
        Some("This group contains a metric type but the unit is not set."@)
    } else {
        None
    }
}

/// Validation logic for the group.
pub fn validate_group(group: &Group) -> (r: Result<(), ValidationError>)
    ensures
        match group_violation(*group) {
            Some(code) => r matches Err(e) && e.code@ == code,
            None => r is Ok,
        },
{
    // If deprecated is present and stability differs from deprecated, this
    // will result in an error.
    if group.deprecated.is_some() && group.stability.is_some() {
        if group.stability != Some(Stability::Deprecated) {
            return Err(ValidationError {
                code: "This group contains a deprecated field but the stability is not set to deprecated.".to_owned(),
            });
        }
    }

    // Fields span_kind and events are only valid if type is span (the default).
    if group.group_type != ConvType::Span {
        if group.span_kind.is_some() {
            return Err(ValidationError {
                code: "This group contains a span_kind field but the type is not set to span.".to_owned(),
            });
        }
        if group.events.len() != 0 {
            return Err(ValidationError {
                code: "This group contains an events field but the type is not set to span.".to_owned(),
            });
        }
    }

    // Field name is required if prefix is empty and if type is event.
    if group.group_type == ConvType::Event {
        if group.prefix.as_str().unicode_len() == 0 && group.name.is_none() {
            return Err(ValidationError {
                code: "This group contains an event type but the prefix is empty and the name is not set.".to_owned(),
            });
        }
    }

    // Fields metric_name, instrument and unit are required if type is metric.
    if group.group_type == ConvType::Metric {
        if group.metric_name.is_none() {
            return Err(ValidationError {
                code: "This group contains a metric type but the metric_name is not set.".to_owned(),
            });
        }
        if group.instrument.is_none() {
            return Err(ValidationError {
                code: "This group contains a metric type but the instrument is not set.".to_owned(),
            });
        }
        if group.unit.is_none() {
            return Err(ValidationError {
                code: "This group contains a metric type but the unit is not set.".to_owned(),
            });
        }
    }
    Ok(())
}

} // verus!
