//! Resolution of the metrics and metric groups of a telemetry schema.
use vstd::prelude::*;
use crate::resolver::{Error, ErrorView};
use crate::resolver::schema_attribute::{
    attr_ids, lemma_merge_precedence, lemma_resolved_no_group_refs, merge_attributes, merged, schema_attr_id,
    resolve_attributes, resolved_map,
};
use crate::schema::attribute::{
    Attribute, AttributeView, clone_opt_tags, clone_schema_attributes, from_semconv_attributes,
    from_semconv_view, schema_attrs_view,
};
use crate::schema::metric::{
    Metric, MetricGroup, MetricGroupView, MetricView, ResourceMetrics, ResourceMetricsView,
    UnivariateMetric, UnivariateMetricView,
};
use crate::schema::spec::SchemaSpec;
use crate::semconv::attribute::{AttributeView as AttributeSpecView, attrs_view, clone_opt_text};
use crate::semconv::catalog::SemConvCatalog;
use crate::sorted::sorted_values;
use crate::version::{Category, VersionChanges};

verus! {

/// The attributes of a metric, resolved (by metric attribute name changes)
/// and ordered by id, or the error that stops their resolution.
pub open spec fn metric_attrs(c: SemConvCatalog, vc: VersionChanges, attrs: Seq<AttributeView>) -> Result<
    Seq<AttributeView>,
    ErrorView,
> {
    match resolved_map(c, vc.renames(Category::Metrics), attrs) {
        Ok(m) => Ok(sorted_values(m)),
        Err(e) => Err(e),
    }
}

/// Resolving a univariate metric: a reference gets its attributes resolved,
/// then becomes the metric it refers to, with its attributes merged over the
/// resolved attributes of that metric; an error when the metric is not in
/// the catalog (the reference keeps its resolved attributes). A metric
/// definition is kept as it is.
pub open spec fn univariate_step(c: SemConvCatalog, vc: VersionChanges, m: UnivariateMetricView) -> (
    UnivariateMetricView,
    Option<ErrorView>,
) {
    match m {
        UnivariateMetricView::Ref { reference, attributes, tags } => match metric_attrs(c, vc, attributes) {
            Err(e) => (m, Some(e)),
            Ok(attrs) => {
                let m1 = UnivariateMetricView::Ref { reference, attributes: attrs, tags };
                if c.metrics().contains_key(reference) {
                    let def = c.metrics()[reference];
                    match metric_attrs(
                        c,
                        vc,
                        def.attributes.map_values(|a: AttributeSpecView| from_semconv_view(a)),
                    ) {
                        Err(e) => (m1, Some(e)),
                        Ok(inherited) => (
                            UnivariateMetricView::Metric {
                                name: def.name,
                                brief: def.brief,
                                note: def.note,
                                attributes: merged(attrs, inherited),
                                instrument: def.instrument,
                                unit: def.unit,
                                tags,
                            },
                            None,
                        ),
                    }
                } else {
                    (m1, Some(ErrorView::FailToResolveMetric { reference }))
                }
            },
        },
        UnivariateMetricView::Metric { .. } => (m, None),
    }
}

/// The attributes that a metric of the catalog passes on to a univariate
/// metric that refers to it, before resolution.
pub open spec fn inherited_attrs(c: SemConvCatalog, reference: Seq<char>) -> Seq<AttributeView> {
    c.metrics()[reference].attributes.map_values(|a: AttributeSpecView| from_semconv_view(a))
}

/// Resolving a univariate metric reference whose own attributes and the
/// attributes of the metric it refers to both resolve gives, with no error,
/// the referenced metric (name, brief, note, instrument, unit) with the
/// reference's tags; its attributes are the reference's own resolved
/// attributes first, all of them and in order, followed only by inherited
/// attributes whose id none of them has, and every inherited attribute whose
/// id none of them has is there.
pub proof fn lemma_univariate_reference(c: SemConvCatalog, vc: VersionChanges, m: UnivariateMetricView)
    requires
        m is Ref,
        metric_attrs(c, vc, m->Ref_attributes) is Ok,
        c.metrics().contains_key(m->Ref_reference),
        metric_attrs(c, vc, inherited_attrs(c, m->Ref_reference)) is Ok,
    ensures
        ({
            let own = metric_attrs(c, vc, m->Ref_attributes)->Ok_0;
            let inh = metric_attrs(c, vc, inherited_attrs(c, m->Ref_reference))->Ok_0;
            let def = c.metrics()[m->Ref_reference];
            &&& univariate_step(c, vc, m).1 is None
            &&& match univariate_step(c, vc, m).0 {
                UnivariateMetricView::Metric { name, brief, note, attributes, instrument, unit, tags } => {
                    &&& name == def.name
                    &&& brief == def.brief
                    &&& note == def.note
                    &&& instrument == def.instrument
                    &&& unit == def.unit
                    &&& tags == m->Ref_tags
                    &&& attributes.len() >= own.len()
                    &&& attributes.subrange(0, own.len() as int) == own
                    &&& forall|j: int|
                        own.len() <= j < attributes.len() ==> !attr_ids(own).contains(
                            schema_attr_id(#[trigger] attributes[j]),
                        ) && inh.contains(attributes[j])
                    &&& forall|i: int|
                        0 <= i < inh.len() && !attr_ids(own).contains(schema_attr_id(inh[i])) ==> attributes.contains(
                            #[trigger] inh[i],
                        )
                },
                _ => false,
            }
        }),
{
    let own = metric_attrs(c, vc, m->Ref_attributes)->Ok_0;
    let inh = metric_attrs(c, vc, inherited_attrs(c, m->Ref_reference))->Ok_0;
    lemma_merge_precedence(own, inh);
}

/// Resolving univariate metrics in order, stopping at the first error: the
/// metrics after it (those after the error unchanged), and the error.
pub open spec fn univariate_fold(c: SemConvCatalog, vc: VersionChanges, ms: Seq<UnivariateMetricView>) -> (
    Seq<UnivariateMetricView>,
    Option<ErrorView>,
)
    decreases ms.len(),
{
    if ms.len() == 0 {
        (Seq::empty(), None)
    } else {
        let (done, e) = univariate_fold(c, vc, ms.drop_last());
        if e is Some {
            (done.push(ms.last()), e)
        } else {
            let (m2, e2) = univariate_step(c, vc, ms.last());
            (done.push(m2), e2)
        }
    }
}

/// Resolving a metric of a metric group: a reference becomes the metric it
/// refers to, with the group's attributes; an error when the metric is not in
/// the catalog. A metric definition is kept as it is.
pub open spec fn group_metric_step(c: SemConvCatalog, group_attrs: Seq<AttributeView>, m: MetricView) -> (
    MetricView,
    Option<ErrorView>,
) {
    match m {
        MetricView::Ref { reference, tags } => if c.metrics().contains_key(reference) {
            let def = c.metrics()[reference];
            (
                MetricView::Metric {
                    name: def.name,
                    brief: def.brief,
                    note: def.note,
                    attributes: group_attrs,
                    instrument: def.instrument,
                    unit: def.unit,
                    tags,
                },
                None,
            )
        } else {
            (m, Some(ErrorView::FailToResolveMetric { reference }))
        },
        MetricView::Metric { .. } => (m, None),
    }
}

/// Resolving a metric of a metric group: a reference to a metric of the
/// catalog becomes that metric (name, brief, note, instrument, unit) with
/// the group's attributes in place of its own and the reference's tags, with
/// no error; a reference to a metric the catalog lacks is kept and reported
/// by its name; a metric definition is kept as it is, with no error.
pub proof fn lemma_group_metric_reference(c: SemConvCatalog, group_attrs: Seq<AttributeView>, m: MetricView)
    ensures
        match m {
            MetricView::Ref { reference, tags: ref_tags } => if c.metrics().contains_key(reference) {
                let def = c.metrics()[reference];
                &&& group_metric_step(c, group_attrs, m).1 is None
                &&& match group_metric_step(c, group_attrs, m).0 {
                    MetricView::Metric { name, brief, note, attributes, instrument, unit, tags } => {
                        &&& name == def.name
                        &&& brief == def.brief
                        &&& note == def.note
                        &&& attributes == group_attrs
                        &&& instrument == def.instrument
                        &&& unit == def.unit
                        &&& tags == ref_tags
                    },
                    _ => false,
                }
            } else {
                &&& group_metric_step(c, group_attrs, m).0 == m
                &&& group_metric_step(c, group_attrs, m).1 == Some(ErrorView::FailToResolveMetric { reference })
            },
            MetricView::Metric { .. } => group_metric_step(c, group_attrs, m) == (m, None::<ErrorView>),
        },
{
}

/// Resolving a univariate metric reference to a metric the catalog lacks
/// reports it by its name, once its own attributes resolve; a univariate
/// metric definition is kept as it is, with no error.
pub proof fn lemma_univariate_unknown(c: SemConvCatalog, vc: VersionChanges, m: UnivariateMetricView)
    ensures
        m is Ref && metric_attrs(c, vc, m->Ref_attributes) is Ok && !c.metrics().contains_key(m->Ref_reference)
            ==> univariate_step(c, vc, m).1 == Some(ErrorView::FailToResolveMetric { reference: m->Ref_reference }),
        m is Metric ==> univariate_step(c, vc, m) == (m, None::<ErrorView>),
{
}

/// Resolving the metrics of a metric group in order, stopping at the first
/// error.
pub open spec fn group_metrics_fold(c: SemConvCatalog, group_attrs: Seq<AttributeView>, ms: Seq<MetricView>) -> (
    Seq<MetricView>,
    Option<ErrorView>,
)
    decreases ms.len(),
{
    if ms.len() == 0 {
        (Seq::empty(), None)
    } else {
        let (done, e) = group_metrics_fold(c, group_attrs, ms.drop_last());
        if e is Some {
            (done.push(ms.last()), e)
        } else {
            let (m2, e2) = group_metric_step(c, group_attrs, ms.last());
            (done.push(m2), e2)
        }
    }
}

/// Resolving a metric group: its attributes, then its metrics.
pub open spec fn metric_group_step(c: SemConvCatalog, vc: VersionChanges, g: MetricGroupView) -> (
    MetricGroupView,
    Option<ErrorView>,
) {
    match metric_attrs(c, vc, g.attributes) {
        Err(e) => (g, Some(e)),
        Ok(attrs) => {
            let (ms, e) = group_metrics_fold(c, attrs, g.metrics);
            (MetricGroupView { id: g.id, attributes: attrs, metrics: ms, tags: g.tags }, e)
        },
    }
}

/// Resolving metric groups in order, stopping at the first error.
pub open spec fn metric_groups_fold(c: SemConvCatalog, vc: VersionChanges, gs: Seq<MetricGroupView>) -> (
    Seq<MetricGroupView>,
    Option<ErrorView>,
)
    decreases gs.len(),
{
    if gs.len() == 0 {
        (Seq::empty(), None)
    } else {
        let (done, e) = metric_groups_fold(c, vc, gs.drop_last());
        if e is Some {
            (done.push(gs.last()), e)
        } else {
            let (g2, e2) = metric_group_step(c, vc, gs.last());
            (done.push(g2), e2)
        }
    }
}

/// Resolving the metrics of a resource: the common attributes, then the
/// univariate metrics, then the metric groups, stopping at the first error.
pub open spec fn resource_metrics_step(c: SemConvCatalog, vc: VersionChanges, rm: ResourceMetricsView) -> (
    ResourceMetricsView,
    Option<ErrorView>,
) {
    match metric_attrs(c, vc, rm.attributes) {
        Err(e) => (rm, Some(e)),
        Ok(attrs) => {
            let (ms, e1) = univariate_fold(c, vc, rm.metrics);
            if e1 is Some {
                (ResourceMetricsView { attributes: attrs, metrics: ms, metric_groups: rm.metric_groups, tags: rm.tags }, e1)
            } else {
                let (gs, e2) = metric_groups_fold(c, vc, rm.metric_groups);
                (ResourceMetricsView { attributes: attrs, metrics: ms, metric_groups: gs, tags: rm.tags }, e2)
            }
        },
    }
}

/// The warning given when a metric group refers to a metric whose own
/// attributes are replaced by those of the group.
pub open spec fn disregard_warning(reference: Seq<char>, group_id: Seq<char>) -> Seq<char> {
    "Attributes inherited from the '"@ + reference
        + "' metric will be disregarded. Instead, the common attributes specified for the metric group '"@
        + group_id + "' will be utilized."@
}

/// The warnings that resolving one metric of a group gives: one when it
/// refers to a metric of the catalog that has attributes of its own.
pub open spec fn metric_warnings(c: SemConvCatalog, group_id: Seq<char>, m: MetricView) -> Seq<Seq<char>> {
    match m {
        MetricView::Ref { reference, .. } => if c.metrics().contains_key(reference)
            && c.metrics()[reference].attributes.len() > 0 {
            seq![disregard_warning(reference, group_id)]
        } else {
            Seq::empty()
        },
        MetricView::Metric { .. } => Seq::empty(),
    }
}

/// The warnings that resolving the metrics of a group gives, in order, up to
/// the first error.
pub open spec fn group_metrics_warnings(
    c: SemConvCatalog,
    group_attrs: Seq<AttributeView>,
    group_id: Seq<char>,
    ms: Seq<MetricView>,
) -> Seq<Seq<char>>
    decreases ms.len(),
{
    if ms.len() == 0 {
        Seq::empty()
    } else {
        let w = group_metrics_warnings(c, group_attrs, group_id, ms.drop_last());
        if group_metrics_fold(c, group_attrs, ms.drop_last()).1 is Some {
            w
        } else {
            w + metric_warnings(c, group_id, ms.last())
        }
    }
}

/// The warnings that resolving a metric group gives: none when its
/// attributes do not resolve.
pub open spec fn metric_group_warnings(c: SemConvCatalog, vc: VersionChanges, g: MetricGroupView) -> Seq<
    Seq<char>,
> {
    match metric_attrs(c, vc, g.attributes) {
        Err(_) => Seq::empty(),
        Ok(attrs) => group_metrics_warnings(c, attrs, g.id, g.metrics),
    }
}

/// The warnings that resolving metric groups in order gives, up to the first
/// error.
pub open spec fn metric_groups_warnings(c: SemConvCatalog, vc: VersionChanges, gs: Seq<MetricGroupView>) -> Seq<
    Seq<char>,
>
    decreases gs.len(),
{
    if gs.len() == 0 {
        Seq::empty()
    } else {
        let w = metric_groups_warnings(c, vc, gs.drop_last());
        if metric_groups_fold(c, vc, gs.drop_last()).1 is Some {
            w
        } else {
            w + metric_group_warnings(c, vc, gs.last())
        }
    }
}

/// The warnings that resolving the metrics of a resource gives: those of its
/// metric groups, which are only reached when the common attributes and the
/// univariate metrics resolve.
pub open spec fn resource_metrics_warnings(c: SemConvCatalog, vc: VersionChanges, rm: ResourceMetricsView) -> Seq<
    Seq<char>,
> {
    match metric_attrs(c, vc, rm.attributes) {
        Err(_) => Seq::empty(),
        Ok(_) => if univariate_fold(c, vc, rm.metrics).1 is Some {
            Seq::empty()
        } else {
            metric_groups_warnings(c, vc, rm.metric_groups)
        },
    }
}

/// The text of the warning given when a metric group refers to a metric
/// whose own attributes are replaced by those of the group.
fn disregard_warning_text(reference: &str, group_id: &str) -> (r: String)
    ensures
        r@ == disregard_warning(reference@, group_id@),
{
    let mut w = "Attributes inherited from the '".to_owned();
    w.append(reference);
    w.append("' metric will be disregarded. Instead, the common attributes specified for the metric group '");
    w.append(group_id);
    w.append("' will be utilized.");
    w
}

/// Resolves the attributes of a metric (by metric attribute name changes).
fn resolve_metric_attributes(
    attributes: &[Attribute],
    sem_conv_catalog: &SemConvCatalog,
    version_changes: &VersionChanges,
) -> (r: Result<Vec<Attribute>, Error>)
    ensures
        match metric_attrs(*sem_conv_catalog, *version_changes, schema_attrs_view(attributes@)) {
            Ok(v) => r matches Ok(a) && schema_attrs_view(a@) == v,
            Err(e) => r matches Err(x) && x@ == e,
        },
{
    resolve_attributes(attributes, sem_conv_catalog, version_changes, Category::Metrics)
}

/// Resolves one univariate metric.
fn resolve_univariate(
    metric: &UnivariateMetric,
    sem_conv_catalog: &SemConvCatalog,
    version_changes: &VersionChanges,
) -> (r: (UnivariateMetric, Option<Error>))
    ensures
        ({
            let (m, e) = univariate_step(*sem_conv_catalog, *version_changes, metric@);
            &&& r.0@ == m
            &&& match e {
                Some(x) => r.1 matches Some(y) && y@ == x,
                None => r.1 is None,
            }
        }),
{
    let ghost c = *sem_conv_catalog;
    let ghost vc = *version_changes;
    match metric {
        UnivariateMetric::Ref { reference, attributes, tags } => {
            let attrs = match resolve_metric_attributes(attributes, sem_conv_catalog, version_changes) {
                Ok(a) => a,
                Err(e) => {
                    return (copy_univariate(metric), Some(e));
                },
            };
            proof {
                lemma_resolved_no_group_refs(c, vc.renames(Category::Metrics), schema_attrs_view(attributes@));
            }
            match sem_conv_catalog.get_metric(reference.as_str()) {
                Some(referenced_metric) => {
                    let inherited = from_semconv_attributes(referenced_metric.attributes.as_slice());
                    proof {
                        assert(schema_attrs_view(inherited@) =~= attrs_view(referenced_metric.attributes@).map_values(
                            |a: AttributeSpecView| from_semconv_view(a),
                        ));
                    }
                    match resolve_metric_attributes(inherited.as_slice(), sem_conv_catalog, version_changes) {
                        Ok(inherited_attrs) => {
                            proof {
                                lemma_resolved_no_group_refs(
                                    c,
                                    vc.renames(Category::Metrics),
                                    schema_attrs_view(inherited@),
                                );
                            }
                            let merged_attrs = merge_attributes(attrs.as_slice(), inherited_attrs.as_slice());
                            (
                                UnivariateMetric::Metric {
                                    name: referenced_metric.name.clone(),
                                    brief: referenced_metric.brief.clone(),
                                    note: referenced_metric.note.clone(),
                                    attributes: merged_attrs,
                                    instrument: referenced_metric.instrument,
                                    unit: clone_opt_text(&referenced_metric.unit),
                                    tags: clone_opt_tags(tags),
                                },
                                None,
                            )
                        },
                        Err(e) => (
                            UnivariateMetric::Ref { reference: reference.clone(), attributes: attrs, tags: clone_opt_tags(tags) },
                            Some(e),
                        ),
                    }
                },
                None => (
                    UnivariateMetric::Ref { reference: reference.clone(), attributes: attrs, tags: clone_opt_tags(tags) },
                    Some(Error::FailToResolveMetric { reference: reference.clone() }),
                ),
            }
        },
        UnivariateMetric::Metric { .. } => (copy_univariate(metric), None),
    }
}

/// A copy of a univariate metric.
fn copy_univariate(m: &UnivariateMetric) -> (r: UnivariateMetric)
    ensures
        r@ == m@,
{
    match m {
        UnivariateMetric::Ref { reference, attributes, tags } => UnivariateMetric::Ref {
            reference: reference.clone(),
            attributes: clone_schema_attributes(attributes.as_slice()),
            tags: clone_opt_tags(tags),
        },
        UnivariateMetric::Metric { name, brief, note, attributes, instrument, unit, tags } => UnivariateMetric::Metric {
            name: name.clone(),
            brief: brief.clone(),
            note: note.clone(),
            attributes: clone_schema_attributes(attributes.as_slice()),
            instrument: *instrument,
            unit: clone_opt_text(unit),
            tags: clone_opt_tags(tags),
        },
    }
}

/// A copy of a metric of a metric group.
fn copy_group_metric(m: &Metric) -> (r: Metric)
    ensures
        r@ == m@,
{
    match m {
        Metric::Ref { reference, tags } => Metric::Ref { reference: reference.clone(), tags: clone_opt_tags(tags) },
        Metric::Metric { name, brief, note, attributes, instrument, unit, tags } => Metric::Metric {
            name: name.clone(),
            brief: brief.clone(),
            note: note.clone(),
            attributes: clone_schema_attributes(attributes.as_slice()),
            instrument: *instrument,
            unit: clone_opt_text(unit),
            tags: clone_opt_tags(tags),
        },
    }
}

/// Resolves the metrics of a metric group, in place, stopping at the first
/// error.
fn resolve_group_metrics(
    metrics: &mut Vec<Metric>,
    group_attrs: &Vec<Attribute>,
    group_id: &str,
    sem_conv_catalog: &SemConvCatalog,
    warnings: &mut Vec<String>,
) -> (r: Option<Error>)
    ensures
        final(warnings)@.map_values(|w: String| w@) == old(warnings)@.map_values(|w: String| w@)
            + group_metrics_warnings(
            *sem_conv_catalog,
            schema_attrs_view(group_attrs@),
            group_id@,
            old(metrics)@.map_values(|m: Metric| m@),
        ),
        ({
            let (ms, e) = group_metrics_fold(
                *sem_conv_catalog,
                schema_attrs_view(group_attrs@),
                old(metrics)@.map_values(|m: Metric| m@),
            );
            &&& final(metrics)@.map_values(|m: Metric| m@) == ms
            &&& match e {
                Some(x) => r matches Some(y) && y@ == x,
                None => r is None,
            }
        }),
{
    let ghost c = *sem_conv_catalog;
    let ghost ga = schema_attrs_view(group_attrs@);
    let ghost orig = metrics@.map_values(|m: Metric| m@);
    let ghost w0 = warnings@.map_values(|w: String| w@);
    let n = metrics.len();
    let mut i: usize = 0;
    proof {
        assert(warnings@.map_values(|w: String| w@) =~= w0 + Seq::<Seq<char>>::empty());
        assert(orig.subrange(0, 0) =~= Seq::<MetricView>::empty());
        assert(metrics@.map_values(|m: Metric| m@) =~= Seq::<MetricView>::empty() + orig.subrange(0, n as int));
    }
    while i < n
        invariant
            i <= n,
            n == orig.len(),
            orig == old(metrics)@.map_values(|m: Metric| m@),
            ga == schema_attrs_view(group_attrs@),
            c == *sem_conv_catalog,
            metrics@.len() == n,
            group_metrics_fold(c, ga, orig.subrange(0, i as int)).1 is None,
            metrics@.map_values(|m: Metric| m@) == group_metrics_fold(c, ga, orig.subrange(0, i as int)).0
                + orig.subrange(i as int, n as int),
            w0 == old(warnings)@.map_values(|w: String| w@),
            warnings@.map_values(|w: String| w@) == w0 + group_metrics_warnings(
                c,
                ga,
                group_id@,
                orig.subrange(0, i as int),
            ),
        decreases n - i,
    {
        proof {
            assert(orig.subrange(0, i + 1).drop_last() =~= orig.subrange(0, i as int));
            assert(orig.subrange(0, i + 1).last() == orig[i as int]);
            lemma_group_metrics_fold_len(c, ga, orig.subrange(0, i as int));
            assert(metrics@[i as int]@ == (metrics@.map_values(|m: Metric| m@))[i as int]);
            assert(metrics@[i as int]@ == orig[i as int]);
        }
        let ghost before = metrics@.map_values(|m: Metric| m@);
        let ghost wb = warnings@.map_values(|w: String| w@);
        let (new_metric, err) = match &metrics[i] {
            Metric::Ref { reference, tags } => {
                match sem_conv_catalog.get_metric(reference.as_str()) {
                    Some(referenced_metric) => {
                        if referenced_metric.attributes.len() > 0 {
                            let w = disregard_warning_text(reference.as_str(), group_id);
                            warnings.push(w);
                            proof {
                                assert(warnings@.map_values(|w: String| w@) =~= wb + metric_warnings(
                                    c,
                                    group_id@,
                                    orig[i as int],
                                ));
                            }
                        } else {
                            proof {
                                assert(wb =~= wb + metric_warnings(c, group_id@, orig[i as int]));
                            }
                        }
                        (
                        Metric::Metric {
                            name: referenced_metric.name.clone(),
                            brief: referenced_metric.brief.clone(),
                            note: referenced_metric.note.clone(),
                            attributes: clone_schema_attributes(group_attrs.as_slice()),
                            instrument: referenced_metric.instrument,
                            unit: clone_opt_text(&referenced_metric.unit),
                            tags: clone_opt_tags(tags),
                        },
                        None,
                    )
                    },
                    None => {
                        proof {
                            assert(wb =~= wb + metric_warnings(c, group_id@, orig[i as int]));
                        }
                        (
                            copy_group_metric(&metrics[i]),
                            Some(Error::FailToResolveMetric { reference: reference.clone() }),
                        )
                    },
                }
            },
            Metric::Metric { .. } => {
                proof {
                    assert(wb =~= wb + metric_warnings(c, group_id@, orig[i as int]));
                }
                (copy_group_metric(&metrics[i]), None)
            },
        };
        let ghost nv = new_metric@;
        proof {
            let step = group_metric_step(c, ga, orig[i as int]);
            assert(step.0 == nv);
            assert(step.1 is Some <==> err is Some);
            assert(err matches Some(y) ==> step.1 == Some(y@));
            lemma_group_metrics_fold_len(c, ga, orig.subrange(0, i as int));
        }
        metrics.set(i, new_metric);
        proof {
            let done = group_metrics_fold(c, ga, orig.subrange(0, i as int)).0;
            assert(metrics@.map_values(|m: Metric| m@) =~= before.update(i as int, nv));
            assert(before.update(i as int, nv) =~= done.push(nv) + orig.subrange(i + 1, n as int));
        }
        proof {
            let done = group_metrics_fold(c, ga, orig.subrange(0, i as int)).0;
            let step = group_metric_step(c, ga, orig[i as int]);
            assert(group_metrics_fold(c, ga, orig.subrange(0, i + 1)) == (done.push(nv), step.1));
            assert(group_metrics_warnings(c, ga, group_id@, orig.subrange(0, i + 1))
                == group_metrics_warnings(c, ga, group_id@, orig.subrange(0, i as int)) + metric_warnings(
                c,
                group_id@,
                orig[i as int],
            ));
            assert(warnings@.map_values(|w: String| w@) =~= w0 + group_metrics_warnings(
                c,
                ga,
                group_id@,
                orig.subrange(0, i + 1),
            ));
        }
        if err.is_some() {
            proof {
                lemma_group_metrics_fold_error_tail(c, ga, orig, i + 1);
                lemma_group_metrics_warnings_error_tail(c, ga, group_id@, orig, i + 1);
                assert(orig.subrange(0, n as int) == orig);
            }
            return err;
        }
        i = i + 1;
    }
    proof {
        assert(orig.subrange(0, n as int) == orig);
        assert(orig.subrange(n as int, n as int) =~= Seq::<MetricView>::empty());
        assert(metrics@.map_values(|m: Metric| m@) =~= group_metrics_fold(c, ga, orig).0);
    }
    None
}

/// After an error, the rest of the metrics of a group give no warning.
proof fn lemma_group_metrics_warnings_error_tail(
    c: SemConvCatalog,
    ga: Seq<AttributeView>,
    gid: Seq<char>,
    ms: Seq<MetricView>,
    k: int,
)
    requires
        0 <= k <= ms.len(),
        group_metrics_fold(c, ga, ms.subrange(0, k)).1 is Some,
    ensures
        group_metrics_warnings(c, ga, gid, ms) == group_metrics_warnings(c, ga, gid, ms.subrange(0, k)),
    decreases ms.len() - k,
{
    if k < ms.len() {
        assert(ms.subrange(0, k + 1).drop_last() =~= ms.subrange(0, k));
        lemma_group_metrics_warnings_error_tail(c, ga, gid, ms, k + 1);
    } else {
        assert(ms.subrange(0, k) == ms);
    }
}

/// After an error, the rest of the metrics of a group are kept as they are.
proof fn lemma_group_metrics_fold_error_tail(c: SemConvCatalog, ga: Seq<AttributeView>, ms: Seq<MetricView>, k: int)
    requires
        0 <= k <= ms.len(),
        group_metrics_fold(c, ga, ms.subrange(0, k)).1 is Some,
    ensures
        group_metrics_fold(c, ga, ms) == (
            group_metrics_fold(c, ga, ms.subrange(0, k)).0 + ms.subrange(k, ms.len() as int),
            group_metrics_fold(c, ga, ms.subrange(0, k)).1,
        ),
    decreases ms.len() - k,
{
    if k < ms.len() {
        assert(ms.subrange(0, k + 1).drop_last() =~= ms.subrange(0, k));
        assert(ms.subrange(0, k + 1).last() == ms[k]);
        lemma_group_metrics_fold_error_tail(c, ga, ms, k + 1);
        assert(group_metrics_fold(c, ga, ms.subrange(0, k)).0.push(ms[k]) + ms.subrange(k + 1, ms.len() as int)
            =~= group_metrics_fold(c, ga, ms.subrange(0, k)).0 + ms.subrange(k, ms.len() as int));
    } else {
        assert(ms.subrange(0, k) == ms);
        assert(ms.subrange(k, ms.len() as int) =~= Seq::<MetricView>::empty());
        assert(group_metrics_fold(c, ga, ms).0 + Seq::<MetricView>::empty() =~= group_metrics_fold(c, ga, ms).0);
    }
}

proof fn lemma_group_metrics_fold_len(c: SemConvCatalog, ga: Seq<AttributeView>, ms: Seq<MetricView>)
    ensures
        group_metrics_fold(c, ga, ms).0.len() == ms.len(),
    decreases ms.len(),
{
    if ms.len() > 0 {
        lemma_group_metrics_fold_len(c, ga, ms.drop_last());
    }
}

proof fn lemma_univariate_fold_len(c: SemConvCatalog, vc: VersionChanges, ms: Seq<UnivariateMetricView>)
    ensures
        univariate_fold(c, vc, ms).0.len() == ms.len(),
    decreases ms.len(),
{
    if ms.len() > 0 {
        lemma_univariate_fold_len(c, vc, ms.drop_last());
    }
}

proof fn lemma_univariate_fold_error_tail(c: SemConvCatalog, vc: VersionChanges, ms: Seq<UnivariateMetricView>, k: int)
    requires
        0 <= k <= ms.len(),
        univariate_fold(c, vc, ms.subrange(0, k)).1 is Some,
    ensures
        univariate_fold(c, vc, ms) == (
            univariate_fold(c, vc, ms.subrange(0, k)).0 + ms.subrange(k, ms.len() as int),
            univariate_fold(c, vc, ms.subrange(0, k)).1,
        ),
    decreases ms.len() - k,
{
    if k < ms.len() {
        assert(ms.subrange(0, k + 1).drop_last() =~= ms.subrange(0, k));
        assert(ms.subrange(0, k + 1).last() == ms[k]);
        lemma_univariate_fold_error_tail(c, vc, ms, k + 1);
        assert(univariate_fold(c, vc, ms.subrange(0, k)).0.push(ms[k]) + ms.subrange(k + 1, ms.len() as int)
            =~= univariate_fold(c, vc, ms.subrange(0, k)).0 + ms.subrange(k, ms.len() as int));
    } else {
        assert(ms.subrange(0, k) == ms);
        assert(univariate_fold(c, vc, ms).0 + ms.subrange(k, ms.len() as int) =~= univariate_fold(c, vc, ms).0);
    }
}

proof fn lemma_metric_groups_fold_len(c: SemConvCatalog, vc: VersionChanges, gs: Seq<MetricGroupView>)
    ensures
        metric_groups_fold(c, vc, gs).0.len() == gs.len(),
    decreases gs.len(),
{
    if gs.len() > 0 {
        lemma_metric_groups_fold_len(c, vc, gs.drop_last());
    }
}

proof fn lemma_metric_groups_fold_error_tail(c: SemConvCatalog, vc: VersionChanges, gs: Seq<MetricGroupView>, k: int)
    requires
        0 <= k <= gs.len(),
        metric_groups_fold(c, vc, gs.subrange(0, k)).1 is Some,
    ensures
        metric_groups_fold(c, vc, gs) == (
            metric_groups_fold(c, vc, gs.subrange(0, k)).0 + gs.subrange(k, gs.len() as int),
            metric_groups_fold(c, vc, gs.subrange(0, k)).1,
        ),
    decreases gs.len() - k,
{
    if k < gs.len() {
        assert(gs.subrange(0, k + 1).drop_last() =~= gs.subrange(0, k));
        assert(gs.subrange(0, k + 1).last() == gs[k]);
        lemma_metric_groups_fold_error_tail(c, vc, gs, k + 1);
        assert(metric_groups_fold(c, vc, gs.subrange(0, k)).0.push(gs[k]) + gs.subrange(k + 1, gs.len() as int)
            =~= metric_groups_fold(c, vc, gs.subrange(0, k)).0 + gs.subrange(k, gs.len() as int));
    } else {
        assert(gs.subrange(0, k) == gs);
        assert(metric_groups_fold(c, vc, gs).0 + gs.subrange(k, gs.len() as int) =~= metric_groups_fold(c, vc, gs).0);
    }
}

/// Resolves univariate metrics, in place, stopping at the first error.
fn resolve_univariate_metrics(
    metrics: &mut Vec<UnivariateMetric>,
    sem_conv_catalog: &SemConvCatalog,
    version_changes: &VersionChanges,
) -> (r: Option<Error>)
    ensures
        ({
            let (ms, e) = univariate_fold(
                *sem_conv_catalog,
                *version_changes,
                old(metrics)@.map_values(|m: UnivariateMetric| m@),
            );
            &&& final(metrics)@.map_values(|m: UnivariateMetric| m@) == ms
            &&& match e {
                Some(x) => r matches Some(y) && y@ == x,
                None => r is None,
            }
        }),
{
    let ghost c = *sem_conv_catalog;
    let ghost vc = *version_changes;
    let ghost orig = metrics@.map_values(|m: UnivariateMetric| m@);
    let n = metrics.len();
    let mut i: usize = 0;
    proof {
        assert(orig.subrange(0, 0) =~= Seq::<UnivariateMetricView>::empty());
        assert(metrics@.map_values(|m: UnivariateMetric| m@) =~= Seq::<UnivariateMetricView>::empty()
            + orig.subrange(0, n as int));
    }
    while i < n
        invariant
            i <= n,
            n == orig.len(),
            orig == old(metrics)@.map_values(|m: UnivariateMetric| m@),
            c == *sem_conv_catalog,
            vc == *version_changes,
            metrics@.len() == n,
            univariate_fold(c, vc, orig.subrange(0, i as int)).1 is None,
            metrics@.map_values(|m: UnivariateMetric| m@) == univariate_fold(c, vc, orig.subrange(0, i as int)).0
                + orig.subrange(i as int, n as int),
        decreases n - i,
    {
        proof {
            assert(orig.subrange(0, i + 1).drop_last() =~= orig.subrange(0, i as int));
            assert(orig.subrange(0, i + 1).last() == orig[i as int]);
            lemma_univariate_fold_len(c, vc, orig.subrange(0, i as int));
            assert(metrics@[i as int]@ == (metrics@.map_values(|m: UnivariateMetric| m@))[i as int]);
            assert(metrics@[i as int]@ == orig[i as int]);
        }
        let ghost before = metrics@.map_values(|m: UnivariateMetric| m@);
        let (new_metric, err) = resolve_univariate(&metrics[i], sem_conv_catalog, version_changes);
        let ghost nv = new_metric@;
        metrics.set(i, new_metric);
        proof {
            let done = univariate_fold(c, vc, orig.subrange(0, i as int)).0;
            let step = univariate_step(c, vc, orig[i as int]);
            assert(metrics@.map_values(|m: UnivariateMetric| m@) =~= before.update(i as int, nv));
            assert(before.update(i as int, nv) =~= done.push(nv) + orig.subrange(i + 1, n as int));
            assert(univariate_fold(c, vc, orig.subrange(0, i + 1)) == (done.push(nv), step.1));
        }
        if err.is_some() {
            proof {
                lemma_univariate_fold_error_tail(c, vc, orig, i + 1);
                assert(orig.subrange(0, n as int) == orig);
            }
            return err;
        }
        i = i + 1;
    }
    proof {
        assert(orig.subrange(0, n as int) == orig);
        assert(orig.subrange(n as int, n as int) =~= Seq::<UnivariateMetricView>::empty());
        assert(metrics@.map_values(|m: UnivariateMetric| m@) =~= univariate_fold(c, vc, orig).0);
    }
    None
}

/// Resolves one metric group, in place.
fn resolve_metric_group(
    group: &mut MetricGroup,
    sem_conv_catalog: &SemConvCatalog,
    version_changes: &VersionChanges,
    warnings: &mut Vec<String>,
) -> (r: Option<Error>)
    ensures
        final(warnings)@.map_values(|w: String| w@) == old(warnings)@.map_values(|w: String| w@)
            + metric_group_warnings(*sem_conv_catalog, *version_changes, old(group)@),
        ({
            let (g, e) = metric_group_step(*sem_conv_catalog, *version_changes, old(group)@);
            &&& final(group)@ == g
            &&& match e {
                Some(x) => r matches Some(y) && y@ == x,
                None => r is None,
            }
        }),
{
    match resolve_metric_attributes(group.attributes.as_slice(), sem_conv_catalog, version_changes) {
        Err(e) => {
            proof {
                assert(warnings@.map_values(|w: String| w@) =~= warnings@.map_values(|w: String| w@)
                    + Seq::<Seq<char>>::empty());
            }
            Some(e)
        },
        Ok(attrs) => {
            group.attributes = attrs;
            resolve_group_metrics(
                &mut group.metrics,
                &group.attributes,
                group.id.as_str(),
                sem_conv_catalog,
                warnings,
            )
        },
    }
}

/// Resolves metric groups, in place, stopping at the first error.
fn resolve_metric_groups(
    groups: &mut Vec<MetricGroup>,
    sem_conv_catalog: &SemConvCatalog,
    version_changes: &VersionChanges,
    warnings: &mut Vec<String>,
) -> (r: Option<Error>)
    ensures
        final(warnings)@.map_values(|w: String| w@) == old(warnings)@.map_values(|w: String| w@)
            + metric_groups_warnings(
            *sem_conv_catalog,
            *version_changes,
            old(groups)@.map_values(|g: MetricGroup| g@),
        ),
        ({
            let (gs, e) = metric_groups_fold(
                *sem_conv_catalog,
                *version_changes,
                old(groups)@.map_values(|g: MetricGroup| g@),
            );
            &&& final(groups)@.map_values(|g: MetricGroup| g@) == gs
            &&& match e {
                Some(x) => r matches Some(y) && y@ == x,
                None => r is None,
            }
        }),
{
    let ghost c = *sem_conv_catalog;
    let ghost vc = *version_changes;
    let ghost orig = groups@.map_values(|g: MetricGroup| g@);
    let ghost w0 = warnings@.map_values(|w: String| w@);
    let n = groups.len();
    let mut i: usize = 0;
    proof {
        assert(warnings@.map_values(|w: String| w@) =~= w0 + Seq::<Seq<char>>::empty());
        assert(orig.subrange(0, 0) =~= Seq::<MetricGroupView>::empty());
        assert(groups@.map_values(|g: MetricGroup| g@) =~= Seq::<MetricGroupView>::empty() + orig.subrange(
            0,
            n as int,
        ));
    }
    while i < n
        invariant
            i <= n,
            n == orig.len(),
            orig == old(groups)@.map_values(|g: MetricGroup| g@),
            c == *sem_conv_catalog,
            vc == *version_changes,
            groups@.len() == n,
            metric_groups_fold(c, vc, orig.subrange(0, i as int)).1 is None,
            groups@.map_values(|g: MetricGroup| g@) == metric_groups_fold(c, vc, orig.subrange(0, i as int)).0
                + orig.subrange(i as int, n as int),
            w0 == old(warnings)@.map_values(|w: String| w@),
            warnings@.map_values(|w: String| w@) == w0 + metric_groups_warnings(c, vc, orig.subrange(0, i as int)),
        decreases n - i,
    {
        proof {
            assert(orig.subrange(0, i + 1).drop_last() =~= orig.subrange(0, i as int));
            assert(orig.subrange(0, i + 1).last() == orig[i as int]);
            lemma_metric_groups_fold_len(c, vc, orig.subrange(0, i as int));
            assert(groups@[i as int]@ == (groups@.map_values(|g: MetricGroup| g@))[i as int]);
            assert(groups@[i as int]@ == orig[i as int]);
        }
        let ghost before = groups@.map_values(|g: MetricGroup| g@);
        let ghost wb = warnings@.map_values(|w: String| w@);
        let mut group = groups.remove(i);
        let err = resolve_metric_group(&mut group, sem_conv_catalog, version_changes, warnings);
        let ghost nv = group@;
        groups.insert(i, group);
        proof {
            let done = metric_groups_fold(c, vc, orig.subrange(0, i as int)).0;
            let step = metric_group_step(c, vc, orig[i as int]);
            assert(groups@.map_values(|g: MetricGroup| g@) =~= before.update(i as int, nv));
            assert(before.update(i as int, nv) =~= done.push(nv) + orig.subrange(i + 1, n as int));
            assert(metric_groups_fold(c, vc, orig.subrange(0, i + 1)) == (done.push(nv), step.1));
            assert(metric_groups_warnings(c, vc, orig.subrange(0, i + 1)) == metric_groups_warnings(
                c,
                vc,
                orig.subrange(0, i as int),
            ) + metric_group_warnings(c, vc, orig[i as int]));
            assert(warnings@.map_values(|w: String| w@) =~= w0 + metric_groups_warnings(
                c,
                vc,
                orig.subrange(0, i + 1),
            ));
        }
        if err.is_some() {
            proof {
                lemma_metric_groups_fold_error_tail(c, vc, orig, i + 1);
                lemma_metric_groups_warnings_error_tail(c, vc, orig, i + 1);
                assert(orig.subrange(0, n as int) == orig);
            }
            return err;
        }
        i = i + 1;
    }
    proof {
        assert(orig.subrange(0, n as int) == orig);
        assert(orig.subrange(n as int, n as int) =~= Seq::<MetricGroupView>::empty());
        assert(groups@.map_values(|g: MetricGroup| g@) =~= metric_groups_fold(c, vc, orig).0);
    }
    None
}

/// After an error, the rest of the metric groups give no warning.
proof fn lemma_metric_groups_warnings_error_tail(c: SemConvCatalog, vc: VersionChanges, gs: Seq<MetricGroupView>, k: int)
    requires
        0 <= k <= gs.len(),
        metric_groups_fold(c, vc, gs.subrange(0, k)).1 is Some,
    ensures
        metric_groups_warnings(c, vc, gs) == metric_groups_warnings(c, vc, gs.subrange(0, k)),
    decreases gs.len() - k,
{
    if k < gs.len() {
        assert(gs.subrange(0, k + 1).drop_last() =~= gs.subrange(0, k));
        lemma_metric_groups_warnings_error_tail(c, vc, gs, k + 1);
    } else {
        assert(gs.subrange(0, k) == gs);
    }
}

/// Resolves the metrics of a schema: the common attributes, the univariate
/// metrics and the metric groups of its resource metrics, stopping at the
/// first error; what was resolved before the error stays resolved.
pub fn resolve_metrics(
    schema: &mut SchemaSpec,
    sem_conv_catalog: &SemConvCatalog,
    version_changes: &VersionChanges,
    warnings: &mut Vec<String>,
) -> (r: Result<(), Error>)
    ensures
        final(warnings)@.map_values(|w: String| w@) == old(warnings)@.map_values(|w: String| w@) + match old(
            schema,
        ).resource_metrics {
            None => Seq::<Seq<char>>::empty(),
            Some(rm) => resource_metrics_warnings(*sem_conv_catalog, *version_changes, rm@),
        },
        final(schema).tags == old(schema).tags,
        final(schema).resource == old(schema).resource,
        final(schema).instrumentation_library == old(schema).instrumentation_library,
        final(schema).resource_events == old(schema).resource_events,
        final(schema).resource_spans == old(schema).resource_spans,
        match old(schema).resource_metrics {
            None => r is Ok && final(schema).resource_metrics is None,
            Some(rm) => {
                let (v, e) = resource_metrics_step(*sem_conv_catalog, *version_changes, rm@);
                &&& final(schema).resource_metrics matches Some(f) && f@ == v
                &&& match e {
                    Some(x) => r matches Err(y) && y@ == x,
                    None => r is Ok,
                }
            },
        },
{
    let mut taken: Option<ResourceMetrics> = None;
    std::mem::swap(&mut taken, &mut schema.resource_metrics);
    match taken {
        None => {
            proof {
                assert(warnings@.map_values(|w: String| w@) =~= warnings@.map_values(|w: String| w@)
                    + Seq::<Seq<char>>::empty());
            }
            schema.resource_metrics = None;
            Ok(())
        },
        Some(mut metrics) => {
            let ghost rm0 = metrics@;
            proof {
                assert(warnings@.map_values(|w: String| w@) =~= warnings@.map_values(|w: String| w@)
                    + Seq::<Seq<char>>::empty());
            }
            let res = match resolve_metric_attributes(metrics.attributes.as_slice(), sem_conv_catalog, version_changes) {
                Err(e) => Err(e),
                Ok(attrs) => {
                    metrics.attributes = attrs;
                    match resolve_univariate_metrics(&mut metrics.metrics, sem_conv_catalog, version_changes) {
                        Some(e) => Err(e),
                        None => match resolve_metric_groups(
                            &mut metrics.metric_groups,
                            sem_conv_catalog,
                            version_changes,
                            warnings,
                        ) {
                            Some(e) => Err(e),
                            None => Ok(()),
                        },
                    }
                },
            };
            schema.resource_metrics = Some(metrics);
            res
        },
    }
}

} // verus!
