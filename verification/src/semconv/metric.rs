//! Metric specification.
use vstd::prelude::*;
use crate::semconv::attribute::{
    Attribute, AttributeView, attrs_view, clone_attributes, clone_opt_text, opt_text,
};
use crate::semconv::group::Instrument;

verus! {

/// A metric specification.
pub struct Metric {
    /// Metric name.
    pub name: String,
    /// Brief description of the metric.
    pub brief: String,
    /// Note on the metric.
    pub note: String,
    /// Attributes of the metric.
    pub attributes: Vec<Attribute>,
    /// Type of the metric (e.g. gauge, histogram, ...).
    pub instrument: Option<Instrument>,
    /// Unit of the metric.
    pub unit: Option<String>,
}

/// The content of a metric specification.
pub struct MetricView {
    /// Metric name.
    pub name: Seq<char>,
    /// Brief description of the metric.
    pub brief: Seq<char>,
    /// Note on the metric.
    pub note: Seq<char>,
    /// Attributes of the metric.
    pub attributes: Seq<AttributeView>,
    /// Type of the metric.
    pub instrument: Option<Instrument>,
    /// Unit of the metric.
    pub unit: Option<Seq<char>>,
}

impl View for Metric {
    type V = MetricView;

    open spec fn view(&self) -> MetricView {
        MetricView {
            name: self.name@,
            brief: self.brief@,
            note: self.note@,
            attributes: attrs_view(self.attributes@),
            instrument: self.instrument,
            unit: opt_text(self.unit),
        }
    }
}

impl Clone for Metric {
    fn clone(&self) -> (r: Self)
        ensures
            r@ == self@,
    {
        Metric {
            name: self.name.clone(),
            brief: self.brief.clone(),
            note: self.note.clone(),
            attributes: clone_attributes(&self.attributes),
            instrument: self.instrument,
            unit: clone_opt_text(&self.unit),
        }
    }
}

} // verus!
