//! A resolved semantic convention registry.
use vstd::prelude::*;
use crate::resolved::attribute::{AttributeRef, UnresolvedAttribute};
use crate::resolved::catalog::Stability;
use crate::semconv::attribute::{AttributeView as AttributeSpecView, opt_text, texts};
use crate::semconv::group::{ConstraintView, Instrument, SpanKind};

verus! {

/// A semantic convention registry.
pub struct Registry {
    /// The semantic convention registry url.
    pub registry_url: String,
    /// A list of semantic convention groups.
    pub groups: Vec<Group>,
}

/// Group specification.
pub struct Group {
    /// The id that uniquely identifies the semantic convention.
    pub id: String,
    /// The type of the group including the specific fields for each type.
    pub typed_group: TypedGroup,
    /// A brief description of the semantic convention.
    pub brief: String,
    /// A more elaborate description of the semantic convention.
    pub note: String,
    /// Prefix for the attributes for this semantic convention.
    pub prefix: String,
    /// Reference another semantic convention id.
    pub extends: Option<String>,
    /// Specifies the stability of the semantic convention.
    pub stability: Option<Stability>,
    /// Specifies if the semantic convention is deprecated.
    pub deprecated: Option<String>,
    /// Additional constraints.
    pub constraints: Vec<Constraint>,
    /// List of attributes that belong to the semantic convention.
    pub attributes: Vec<AttributeRef>,
}

/// The type of a group including the specific fields for each type.
pub enum TypedGroup {
    /// A semantic convention group representing an attribute group.
    AttributeGroup,
    /// A semantic convention group representing a span.
    Span {
        /// Specifies the kind of the span.
        span_kind: Option<SpanKind>,
        /// The ids of event semantic conventions associated with the span.
        events: Vec<String>,
    },
    /// A semantic convention group representing an event.
    Event {
        /// The name of the event.
        name: Option<String>,
    },
    /// A semantic convention group representing a metric.
    Metric {
        /// The metric name.
        metric_name: Option<String>,
        /// The instrument type that should be used to record the metric.
        instrument: Option<Instrument>,
        /// The unit in which the metric is measured.
        unit: Option<String>,
    },
    /// A semantic convention group representing a metric group.
    MetricGroup,
    /// A semantic convention group representing a resource.
    Resource,
    /// A semantic convention group representing a scope.
    Scope,
}

/// Allow to define additional requirements on the semantic convention.
pub struct Constraint {
    /// Lists of attribute ids of which all of at least one must be set.
    pub any_of: Vec<String>,
    /// A semantic convention id whose constraints and required attributes
    /// are taken in.
    pub includes: Option<String>,
}

/// A group whose attributes are not all resolved yet.
pub struct UnresolvedGroup {
    /// The group, with the references of the attributes resolved so far.
    pub group: Group,
    /// The attributes left to resolve.
    pub attributes: Vec<UnresolvedAttribute>,
}

/// A registry whose groups are not all resolved yet.
pub struct UnresolvedRegistry {
    /// The registry.
    pub registry: Registry,
    /// The groups.
    pub groups: Vec<UnresolvedGroup>,
}

/// The content of a group type.
pub enum TypedGroupView {
    /// An attribute group.
    AttributeGroup,
    /// A span.
    Span { span_kind: Option<SpanKind>, events: Seq<Seq<char>> },
    /// An event.
    Event { name: Option<Seq<char>> },
    /// A metric.
    Metric { metric_name: Option<Seq<char>>, instrument: Option<Instrument>, unit: Option<Seq<char>> },
    /// A metric group.
    MetricGroup,
    /// A resource.
    Resource,
    /// A scope.
    Scope,
}

/// The content of a group.
pub struct GroupView {
    /// The id.
    pub id: Seq<char>,
    /// The type.
    pub typed_group: TypedGroupView,
    /// A brief description.
    pub brief: Seq<char>,
    /// A note.
    pub note: Seq<char>,
    /// The prefix of its attributes.
    pub prefix: Seq<char>,
    /// The group it extends.
    pub extends: Option<Seq<char>>,
    /// The stability.
    pub stability: Option<Stability>,
    /// Why it is deprecated.
    pub deprecated: Option<Seq<char>>,
    /// The constraints.
    pub constraints: Seq<ConstraintView>,
    /// The references of its attributes.
    pub attributes: Seq<AttributeRef>,
}

/// The content of a group whose attributes are not all resolved yet.
pub struct UnresolvedGroupView {
    /// The group.
    pub group: GroupView,
    /// The attributes left to resolve.
    pub attributes: Seq<AttributeSpecView>,
}

impl View for TypedGroup {
    type V = TypedGroupView;

    open spec fn view(&self) -> TypedGroupView {
        match self {
            TypedGroup::AttributeGroup => TypedGroupView::AttributeGroup,
            TypedGroup::Span { span_kind, events } => TypedGroupView::Span {
                span_kind: *span_kind,
                events: texts(events@),
            },
            TypedGroup::Event { name } => TypedGroupView::Event { name: opt_text(*name) },
            TypedGroup::Metric { metric_name, instrument, unit } => TypedGroupView::Metric {
                metric_name: opt_text(*metric_name),
                instrument: *instrument,
                unit: opt_text(*unit),
            },
            TypedGroup::MetricGroup => TypedGroupView::MetricGroup,
            TypedGroup::Resource => TypedGroupView::Resource,
            TypedGroup::Scope => TypedGroupView::Scope,
        }
    }
}

impl View for Constraint {
    type V = ConstraintView;

    open spec fn view(&self) -> ConstraintView {
        ConstraintView { any_of: texts(self.any_of@), includes: opt_text(self.includes) }
    }
}

impl View for Group {
    type V = GroupView;

    open spec fn view(&self) -> GroupView {
        GroupView {
            id: self.id@,
            typed_group: self.typed_group@,
            brief: self.brief@,
            note: self.note@,
            prefix: self.prefix@,
            extends: opt_text(self.extends),
            stability: self.stability,
            deprecated: opt_text(self.deprecated),
            constraints: self.constraints@.map_values(|c: Constraint| c@),
            attributes: self.attributes@,
        }
    }
}

/// The contents of a sequence of unresolved attributes.
pub open spec fn unresolved_view(s: Seq<UnresolvedAttribute>) -> Seq<AttributeSpecView> {
    s.map_values(|a: UnresolvedAttribute| a.spec@)
}

impl View for UnresolvedGroup {
    type V = UnresolvedGroupView;

    open spec fn view(&self) -> UnresolvedGroupView {
        UnresolvedGroupView { group: self.group@, attributes: unresolved_view(self.attributes@) }
    }
}

/// The contents of a sequence of groups.
pub open spec fn groups_view(s: Seq<Group>) -> Seq<GroupView> {
    s.map_values(|g: Group| g@)
}

/// The contents of a sequence of unresolved groups.
pub open spec fn unresolved_groups_view(s: Seq<UnresolvedGroup>) -> Seq<UnresolvedGroupView> {
    s.map_values(|g: UnresolvedGroup| g@)
}

} // verus!
