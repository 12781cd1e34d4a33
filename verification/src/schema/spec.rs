//! The specification of what an application or library emits: its
//! resource, instrumentation library and signals.
use vstd::prelude::*;
use crate::schema::attribute::Attribute;
use crate::schema::metric::{MetricGroup, ResourceMetrics, UnivariateMetric};
use crate::text::same_text;
use crate::semconv::group::SpanKind;
use crate::tags::Tags;

verus! {

/// A schema specification.
pub struct SchemaSpec {
    /// A set of tags for the schema.
    pub tags: Option<Tags>,
    /// A common resource specification.
    pub resource: Option<Resource>,
    /// The instrumentation library specification.
    pub instrumentation_library: Option<InstrumentationLibrary>,
    /// A resource metrics specification.
    pub resource_metrics: Option<ResourceMetrics>,
    /// A resource events specification.
    pub resource_events: Option<ResourceEvents>,
    /// A resource spans specification.
    pub resource_spans: Option<ResourceSpans>,
}

/// A common resource specification.
pub struct Resource {
    /// The attributes of the resource.
    pub attributes: Vec<Attribute>,
    /// A set of tags for the resource.
    pub tags: Option<Tags>,
}

/// An instrumentation library specification.
pub struct InstrumentationLibrary {
    /// An optional name for the instrumentation library.
    pub name: Option<String>,
    /// An optional version for the instrumentation library.
    pub version: Option<String>,
}

/// The events of a resource.
pub struct ResourceEvents {
    /// Common attributes shared across events.
    pub attributes: Vec<Attribute>,
    /// Definitions of all events this application or library generates.
    pub events: Vec<Event>,
    /// A set of tags for the resource events.
    pub tags: Option<Tags>,
}

/// An event specification.
pub struct Event {
    /// The name of the event.
    pub event_name: String,
    /// The domain of the event.
    pub domain: String,
    /// The attributes of the event.
    pub attributes: Vec<Attribute>,
    /// A set of tags for the event.
    pub tags: Option<Tags>,
}

/// The spans of a resource.
pub struct ResourceSpans {
    /// Common attributes shared across spans.
    pub attributes: Vec<Attribute>,
    /// Definitions of all spans this application or library generates.
    pub spans: Vec<Span>,
    /// A set of tags for the resource spans.
    pub tags: Option<Tags>,
}

/// A span specification.
pub struct Span {
    /// The name of the span.
    pub span_name: String,
    /// The kind of the span.
    pub kind: Option<SpanKind>,
    /// The attributes of the span.
    pub attributes: Vec<Attribute>,
    /// The events of the span.
    pub events: Vec<SpanEvent>,
    /// The links of the span.
    pub links: Vec<SpanLink>,
    /// A set of tags for the span.
    pub tags: Option<Tags>,
}

/// A span event specification.
pub struct SpanEvent {
    /// The name of the span event.
    pub id: String,
    /// The attributes of the span event.
    pub attributes: Vec<Attribute>,
    /// A set of tags for the span event.
    pub tags: Option<Tags>,
}

/// A span link specification.
pub struct SpanLink {
    /// The name of the span link.
    pub link_name: String,
    /// The attributes of the span link.
    pub attributes: Vec<Attribute>,
    /// A set of tags for the span link.
    pub tags: Option<Tags>,
}


/// The name a univariate metric goes by: the metric it refers to, or the
/// one it defines.
pub open spec fn univariate_name(m: UnivariateMetric) -> Seq<char> {
    match m {
        UnivariateMetric::Ref { reference, .. } => reference@,
        UnivariateMetric::Metric { name, .. } => name@,
    }
}

/// What a lookup by key gives: the first element with that key.
pub open spec fn found<T>(r: Option<&T>, s: Seq<T>, key: spec_fn(T) -> Seq<char>, k: Seq<char>) -> bool {
    match r {
        Some(x) => exists|i: int|
            0 <= i < s.len() && key(s[i]) == k && *x == s[i] && (forall|j: int| 0 <= j < i ==> key(s[j]) != k),
        None => forall|i: int| 0 <= i < s.len() ==> key(s[i]) != k,
    }
}

/// The elements of `v`, in order, by reference.
fn all_refs<T>(v: &Vec<T>) -> (r: Vec<&T>)
    ensures
        r@.len() == v@.len(),
        forall|i: int| 0 <= i < r@.len() ==> *(#[trigger] r@[i]) == v@[i],
{
    let mut out: Vec<&T> = Vec::new();
    let mut i: usize = 0;
    while i < v.len()
        invariant
            i <= v@.len(),
            out@.len() == i,
            forall|j: int| 0 <= j < i ==> *(#[trigger] out@[j]) == v@[j],
        decreases v@.len() - i,
    {
        out.push(&v[i]);
        i = i + 1;
    }
    out
}

/// The name of a univariate metric.
fn univariate_name_text(m: &UnivariateMetric) -> (r: &String)
    ensures
        r@ == univariate_name(*m),
{
    match m {
        UnivariateMetric::Ref { reference, .. } => reference,
        UnivariateMetric::Metric { name, .. } => name,
    }
}

impl SchemaSpec {
    /// Returns a metric by name or None if not found: the first univariate
    /// metric of the resource metrics that goes by that name.
    pub fn metric(&self, name: &str) -> (r: Option<&UnivariateMetric>)
        ensures
            match self.resource_metrics {
                Some(rm) => found(r, rm.metrics@, |m: UnivariateMetric| univariate_name(m), name@),
                None => r is None,
            },
    {
        match &self.resource_metrics {
            None => None,
            Some(rm) => {
                let ghost key = |m: UnivariateMetric| univariate_name(m);
                let mut i: usize = 0;
                while i < rm.metrics.len()
                    invariant
                        i <= rm.metrics@.len(),
                        self.resource_metrics == Some(*rm),
                        key == (|m: UnivariateMetric| univariate_name(m)),
                        forall|j: int| 0 <= j < i ==> key(rm.metrics@[j]) != name@,
                    decreases rm.metrics@.len() - i,
                {
                    if same_text(univariate_name_text(&rm.metrics[i]), name) {
                        proof {
                            assert(0 <= i < rm.metrics@.len() && key(rm.metrics@[i as int]) == name@ && (forall|j: int| 0 <= j < i ==> key(rm.metrics@[j]) != name@));
                        }
                        return Some(&rm.metrics[i]);
                    }
                    i = i + 1;
                }
                None
            },
        }
    }

    /// Returns a metric group by name or None if not found: the first
    /// metric group of the resource metrics with that id.
    pub fn metric_group(&self, name: &str) -> (r: Option<&MetricGroup>)
        ensures
            match self.resource_metrics {
                Some(rm) => found(r, rm.metric_groups@, |g: MetricGroup| g.id@, name@),
                None => r is None,
            },
    {
        match &self.resource_metrics {
            None => None,
            Some(rm) => {
                let ghost key = |g: MetricGroup| g.id@;
                let mut i: usize = 0;
                while i < rm.metric_groups.len()
                    invariant
                        i <= rm.metric_groups@.len(),
                        self.resource_metrics == Some(*rm),
                        key == (|g: MetricGroup| g.id@),
                        forall|j: int| 0 <= j < i ==> key(rm.metric_groups@[j]) != name@,
                    decreases rm.metric_groups@.len() - i,
                {
                    if same_text(&rm.metric_groups[i].id, name) {
                        proof {
                            assert(0 <= i < rm.metric_groups@.len() && key(rm.metric_groups@[i as int]) == name@ && (forall|j: int| 0 <= j < i ==> key(rm.metric_groups@[j]) != name@));
                        }
                        return Some(&rm.metric_groups[i]);
                    }
                    i = i + 1;
                }
                None
            },
        }
    }

    /// Returns the univariate metrics, in order (none without resource
    /// metrics).
    pub fn metrics(&self) -> (r: Vec<&UnivariateMetric>)
        ensures
            match self.resource_metrics {
                Some(rm) => r@.len() == rm.metrics@.len() && forall|i: int|
                    0 <= i < r@.len() ==> *(#[trigger] r@[i]) == rm.metrics@[i],
                None => r@.len() == 0,
            },
    {
        match &self.resource_metrics {
            None => Vec::new(),
            Some(rm) => all_refs(&rm.metrics),
        }
    }

    /// Returns the metric groups, in order (none without resource metrics).
    pub fn metric_groups(&self) -> (r: Vec<&MetricGroup>)
        ensures
            match self.resource_metrics {
                Some(rm) => r@.len() == rm.metric_groups@.len() && forall|i: int|
                    0 <= i < r@.len() ==> *(#[trigger] r@[i]) == rm.metric_groups@[i],
                None => r@.len() == 0,
            },
    {
        match &self.resource_metrics {
            None => Vec::new(),
            Some(rm) => all_refs(&rm.metric_groups),
        }
    }

    /// Returns the events, in order (none without resource events).
    pub fn events(&self) -> (r: Vec<&Event>)
        ensures
            match self.resource_events {
                Some(re) => r@.len() == re.events@.len() && forall|i: int|
                    0 <= i < r@.len() ==> *(#[trigger] r@[i]) == re.events@[i],
                None => r@.len() == 0,
            },
    {
        match &self.resource_events {
            None => Vec::new(),
            Some(re) => all_refs(&re.events),
        }
    }

    /// Returns the spans, in order (none without resource spans).
    pub fn spans(&self) -> (r: Vec<&Span>)
        ensures
            match self.resource_spans {
                Some(rs) => r@.len() == rs.spans@.len() && forall|i: int|
                    0 <= i < r@.len() ==> *(#[trigger] r@[i]) == rs.spans@[i],
                None => r@.len() == 0,
            },
    {
        match &self.resource_spans {
            None => Vec::new(),
            Some(rs) => all_refs(&rs.spans),
        }
    }

    /// Returns an event by name or None if not found: the first event with
    /// that name.
    pub fn event(&self, event_name: &str) -> (r: Option<&Event>)
        ensures
            match self.resource_events {
                Some(re) => found(r, re.events@, |e: Event| e.event_name@, event_name@),
                None => r is None,
            },
    {
        match &self.resource_events {
            None => None,
            Some(re) => {
                let ghost key = |e: Event| e.event_name@;
                let mut i: usize = 0;
                while i < re.events.len()
                    invariant
                        i <= re.events@.len(),
                        self.resource_events == Some(*re),
                        key == (|e: Event| e.event_name@),
                        forall|j: int| 0 <= j < i ==> key(re.events@[j]) != event_name@,
                    decreases re.events@.len() - i,
                {
                    if same_text(&re.events[i].event_name, event_name) {
                        proof {
                            assert(0 <= i < re.events@.len() && key(re.events@[i as int]) == event_name@ && (forall|j: int| 0 <= j < i ==> key(re.events@[j]) != event_name@));
                        }
                        return Some(&re.events[i]);
                    }
                    i = i + 1;
                }
                None
            },
        }
    }

    /// Returns a span by name or None if not found: the first span with that
    /// name.
    pub fn span(&self, span_name: &str) -> (r: Option<&Span>)
        ensures
            match self.resource_spans {
                Some(rs) => found(r, rs.spans@, |s: Span| s.span_name@, span_name@),
                None => r is None,
            },
    {
        match &self.resource_spans {
            None => None,
            Some(rs) => {
                let ghost key = |s: Span| s.span_name@;
                let mut i: usize = 0;
                while i < rs.spans.len()
                    invariant
                        i <= rs.spans@.len(),
                        self.resource_spans == Some(*rs),
                        key == (|s: Span| s.span_name@),
                        forall|j: int| 0 <= j < i ==> key(rs.spans@[j]) != span_name@,
                    decreases rs.spans@.len() - i,
                {
                    if same_text(&rs.spans[i].span_name, span_name) {
                        proof {
                            assert(0 <= i < rs.spans@.len() && key(rs.spans@[i as int]) == span_name@ && (forall|j: int| 0 <= j < i ==> key(rs.spans@[j]) != span_name@));
                        }
                        return Some(&rs.spans[i]);
                    }
                    i = i + 1;
                }
                None
            },
        }
    }
}

} // verus!
