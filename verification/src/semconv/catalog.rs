//! A semantic convention catalog is a collection of semantic convention
//! specifications; it indexes their attributes, groups and metrics and
//! resolves the references between them.
use vstd::prelude::*;
use crate::key_map::{KeyMap, entries_map, key_seq, lemma_entries_map_contains, unique_keys};
use crate::text::{decimal, decimal_text, quoted, quoted_text, same_text};
use crate::semconv::attribute::{Attribute, AttributeView, attrs_view, clone_attributes, clone_opt_text};
use crate::semconv::group::{ConvType, Group, GroupView, ValidationError, group_violation, validate_group};
use crate::semconv::metric::{Metric, MetricView};

verus! {

/// An error that can occur while loading a semantic convention catalog.
pub enum Error {
    /// The semantic convention asset was not found.
    CatalogNotFound {
        /// The path or URL of the semantic convention asset.
        path_or_url: String,
        /// The error that occurred.
        error: String,
    },
    /// The semantic convention asset is invalid.
    InvalidCatalog {
        /// The path or URL of the semantic convention asset.
        path_or_url: String,
        /// The line where the error occurred.
        line: Option<usize>,
        /// The column where the error occurred.
        column: Option<usize>,
        /// The error that occurred.
        error: String,
    },
    /// The semantic convention asset contains a duplicate attribute id.
    DuplicateAttributeId {
        /// The path or URL of the semantic convention asset.
        path_or_url: String,
        /// The duplicated attribute id.
        id: String,
    },
    /// The semantic convention asset contains a duplicate group id.
    DuplicateGroupId {
        /// The path or URL of the semantic convention asset.
        path_or_url: String,
        /// The duplicated group id.
        id: String,
        /// The asset where the group id was already defined.
        origin: String,
    },
    /// The semantic convention asset contains a duplicate metric name.
    DuplicateMetricName {
        /// The path or URL of the semantic convention asset.
        path_or_url: String,
        /// The duplicated metric name.
        name: String,
    },
    /// The semantic convention asset contains an invalid attribute definition.
    InvalidAttribute {
        /// The path or URL of the semantic convention asset.
        path_or_url: String,
        /// The group id of the attribute.
        group_id: String,
        /// The reason of the error.
        error: String,
    },
    /// The attribute reference is not found.
    AttributeNotFound {
        /// The attribute reference.
        reference: String,
    },
    /// The semantic convention asset contains an invalid metric definition.
    InvalidMetric {
        /// The path or URL of the semantic convention asset.
        path_or_url: String,
        /// The group id of the metric.
        group_id: String,
        /// The reason of the error.
        error: String,
    },
}

/// The content of an error.
pub enum ErrorView {
    /// The semantic convention asset was not found.
    CatalogNotFound { path_or_url: Seq<char>, error: Seq<char> },
    /// The semantic convention asset is invalid.
    InvalidCatalog {
        path_or_url: Seq<char>,
        line: Option<usize>,
        column: Option<usize>,
        error: Seq<char>,
    },
    /// A duplicate attribute id.
    DuplicateAttributeId { path_or_url: Seq<char>, id: Seq<char> },
    /// A duplicate group id.
    DuplicateGroupId { path_or_url: Seq<char>, id: Seq<char>, origin: Seq<char> },
    /// A duplicate metric name.
    DuplicateMetricName { path_or_url: Seq<char>, name: Seq<char> },
    /// An invalid attribute definition.
    InvalidAttribute { path_or_url: Seq<char>, group_id: Seq<char>, error: Seq<char> },
    /// The attribute reference is not found.
    AttributeNotFound { reference: Seq<char> },
    /// An invalid metric definition.
    InvalidMetric { path_or_url: Seq<char>, group_id: Seq<char>, error: Seq<char> },
}

impl View for Error {
    type V = ErrorView;

    open spec fn view(&self) -> ErrorView {
        match self {
            Error::CatalogNotFound { path_or_url, error } => ErrorView::CatalogNotFound {
                path_or_url: path_or_url@,
                error: error@,
            },
            Error::InvalidCatalog { path_or_url, line, column, error } => ErrorView::InvalidCatalog {
                path_or_url: path_or_url@,
                line: *line,
                column: *column,
                error: error@,
            },
            Error::DuplicateAttributeId { path_or_url, id } => ErrorView::DuplicateAttributeId {
                path_or_url: path_or_url@,
                id: id@,
            },
            Error::DuplicateGroupId { path_or_url, id, origin } => ErrorView::DuplicateGroupId {
                path_or_url: path_or_url@,
                id: id@,
                origin: origin@,
            },
            Error::DuplicateMetricName { path_or_url, name } => ErrorView::DuplicateMetricName {
                path_or_url: path_or_url@,
                name: name@,
            },
            Error::InvalidAttribute { path_or_url, group_id, error } => ErrorView::InvalidAttribute {
                path_or_url: path_or_url@,
                group_id: group_id@,
                error: error@,
            },
            Error::AttributeNotFound { reference } => ErrorView::AttributeNotFound {
                reference: reference@,
            },
            Error::InvalidMetric { path_or_url, group_id, error } => ErrorView::InvalidMetric {
                path_or_url: path_or_url@,
                group_id: group_id@,
                error: error@,
            },
        }
    }
}

/// A semantic convention specification.
pub struct SemConvSpec {
    /// A collection of semantic convention groups.
    pub groups: Vec<Group>,
}

/// The contents of a sequence of groups.
pub open spec fn groups_view(s: Seq<Group>) -> Seq<GroupView> {
    s.map_values(|g: Group| g@)
}

/// Indices of the groups that break a rule, with the reason, in order.
pub open spec fn violations(gs: Seq<Group>) -> Seq<(int, Seq<char>)>
    decreases gs.len(),
{
    if gs.len() == 0 {
        Seq::empty()
    } else {
        let rest = violations(gs.drop_last());
        match group_violation(gs.last()) {
            Some(code) => rest.push((gs.len() - 1, code)),
            None => rest,
        }
    }
}

impl SemConvSpec {
    /// Validates every group: `Ok` when all are valid, else the index and the
    /// reason of each invalid group, in order.
    pub fn validate(&self) -> (r: Result<(), Vec<(usize, ValidationError)>>)
        ensures
            match r {
                Ok(()) => violations(self.groups@).len() == 0,
                Err(v) => violations(self.groups@).len() > 0 && v@.len() == violations(
                    self.groups@,
                ).len() && forall|i: int| 0 <= i < v@.len() ==> (#[trigger] v@[i]).0 == violations(
                    self.groups@,
                )[i].0 && v@[i].1.code@ == violations(self.groups@)[i].1,
            },
    {
        let mut errs: Vec<(usize, ValidationError)> = Vec::new();
        let mut i: usize = 0;
        while i < self.groups.len()
            invariant
                i <= self.groups@.len(),
                errs@.len() == violations(self.groups@.subrange(0, i as int)).len(),
                forall|j: int| 0 <= j < errs@.len() ==> (#[trigger] errs@[j]).0 == violations(
                    self.groups@.subrange(0, i as int),
                )[j].0 && errs@[j].1.code@ == violations(self.groups@.subrange(0, i as int))[j].1,
            decreases self.groups@.len() - i,
        {
            proof {
                let g = self.groups@.subrange(0, i + 1);
                assert(g.drop_last() == self.groups@.subrange(0, i as int));
                assert(g.last() == self.groups@[i as int]);
            }
            match validate_group(&self.groups[i]) {
                Ok(()) => {},
                Err(e) => {
                    errs.push((i, e));
                },
            }
            i = i + 1;
        }
        proof {
            assert(self.groups@.subrange(0, self.groups@.len() as int) == self.groups@);
        }
        if errs.len() == 0 {
            Ok(())
        } else {
            Err(errs)
        }
    }
}

/// The configuration of the resolver.
pub struct ResolverConfig {
    /// Whether a reference to an attribute that is not found is an error
    /// (else it is a warning).
    pub error_when_attribute_ref_not_found: bool,
}

impl Default for ResolverConfig {
    /// By default, a reference to an attribute that is not found is an error.
    fn default() -> (r: Self)
        ensures
            r.error_when_attribute_ref_not_found,
    {
        ResolverConfig { error_when_attribute_ref_not_found: true }
    }
}

/// A wrapper for a resolver error that is considered as a warning
/// by configuration.
pub struct ResolverWarning {
    /// The error that occurred.
    pub error: Error,
}

/// Represents a collection of ids (attribute or metric ids).
struct GroupIds {
    /// The semantic convention origin (path or URL) where the group id is
    /// defined. This is used to report errors.
    origin: String,
    /// The collection of ids (attribute or metric ids).
    ids: KeyMap<()>,
}

/// The content of a collection of ids.
pub struct GroupIdsView {
    /// Where the group is defined.
    pub origin: Seq<char>,
    /// The ids.
    pub ids: Set<Seq<char>>,
}

impl View for GroupIds {
    type V = GroupIdsView;

    closed spec fn view(&self) -> GroupIdsView {
        GroupIdsView { origin: self.origin@, ids: self.ids@.dom() }
    }
}

/// An attribute reference to check once all the attributes are known.
struct AttributeToResolve {
    path_or_url: String,
    group_id: String,
    reference: String,
}

/// The content of an attribute reference to check.
pub struct PendingRef {
    /// Where the reference is made.
    pub path_or_url: Seq<char>,
    /// The group that makes it.
    pub group_id: Seq<char>,
    /// The attribute referred to.
    pub reference: Seq<char>,
}

impl View for AttributeToResolve {
    type V = PendingRef;

    closed spec fn view(&self) -> PendingRef {
        PendingRef {
            path_or_url: self.path_or_url@,
            group_id: self.group_id@,
            reference: self.reference@,
        }
    }
}

/// A semantic convention catalog is a collection of semantic convention
/// specifications indexed by group id.
pub struct SemConvCatalog {
    specs: Vec<(String, SemConvSpec)>,
    all_attributes: KeyMap<Attribute>,
    all_metrics: KeyMap<Metric>,
    resource_group_attributes: KeyMap<GroupIds>,
    attr_grp_group_attributes: KeyMap<GroupIds>,
    span_group_attributes: KeyMap<GroupIds>,
    event_group_attributes: KeyMap<GroupIds>,
    metric_group_attributes: KeyMap<GroupIds>,
    metric_group_group_attributes: KeyMap<GroupIds>,
}

/// The content of a collection of group tables.
spec fn tables_view(m: Map<Seq<char>, GroupIds>) -> Map<Seq<char>, GroupIdsView> {
    m.map_values(|g: GroupIds| g@)
}

/// The content of the loaded specifications.
pub open spec fn specs_view(s: Seq<(String, SemConvSpec)>) -> Seq<(Seq<char>, Seq<GroupView>)> {
    s.map_values(|p: (String, SemConvSpec)| (p.0@, groups_view(p.1.groups@)))
}

impl SemConvCatalog {
    /// The loaded specifications, not resolved yet, each with its origin.
    pub closed spec fn specs(&self) -> Seq<(Seq<char>, Seq<GroupView>)> {
        specs_view(self.specs@)
    }

    /// All the attributes defined in the catalog, by fully qualified id.
    pub closed spec fn attributes(&self) -> Map<Seq<char>, AttributeView> {
        self.all_attributes@.map_values(|a: Attribute| a@)
    }

    /// The attributes of a catalog are finitely many.
    pub proof fn lemma_attributes_finite(self)
        ensures
            self.attributes().dom().finite(),
    {
        crate::key_map::lemma_key_map_finite(self.all_attributes);
        assert(self.attributes().dom() =~= self.all_attributes@.dom());
    }

    /// All the metrics defined in the catalog, by name.
    pub closed spec fn metrics(&self) -> Map<Seq<char>, MetricView> {
        self.all_metrics@.map_values(|m: Metric| m@)
    }

    /// The attribute ids of the groups of a type, by group id.
    pub closed spec fn table(&self, t: ConvType) -> Map<Seq<char>, GroupIdsView> {
        match t {
            ConvType::AttributeGroup => tables_view(self.attr_grp_group_attributes@),
            ConvType::Span => tables_view(self.span_group_attributes@),
            ConvType::Event => tables_view(self.event_group_attributes@),
            ConvType::Metric => tables_view(self.metric_group_attributes@),
            ConvType::MetricGroup => tables_view(self.metric_group_group_attributes@),
            ConvType::Resource => tables_view(self.resource_group_attributes@),
            ConvType::Scope => Map::empty(),
        }
    }

    /// An empty catalog.
    pub fn new() -> (r: SemConvCatalog)
        ensures
            r.specs().len() == 0,
            r.attributes() == Map::<Seq<char>, AttributeView>::empty(),
            r.metrics() == Map::<Seq<char>, MetricView>::empty(),
            forall|t: ConvType| #[trigger] r.table(t) == Map::<Seq<char>, GroupIdsView>::empty(),
    {
        let r = SemConvCatalog {
            specs: Vec::new(),
            all_attributes: KeyMap::new(),
            all_metrics: KeyMap::new(),
            resource_group_attributes: KeyMap::new(),
            attr_grp_group_attributes: KeyMap::new(),
            span_group_attributes: KeyMap::new(),
            event_group_attributes: KeyMap::new(),
            metric_group_attributes: KeyMap::new(),
            metric_group_group_attributes: KeyMap::new(),
        };
        proof {
            assert(r.specs() =~= Seq::<(Seq<char>, Seq<GroupView>)>::empty());
            assert(r.attributes() =~= Map::<Seq<char>, AttributeView>::empty());
            assert(r.metrics() =~= Map::<Seq<char>, MetricView>::empty());
            assert forall|t: ConvType| #[trigger] r.table(t) == Map::<Seq<char>, GroupIdsView>::empty() by {
                assert(tables_view(Map::<Seq<char>, GroupIds>::empty()) =~= Map::<Seq<char>, GroupIdsView>::empty());
            }
        }
        r
    }
}

/// The fully qualified id of an attribute: the prefix and the id separated
/// by a dot, or the id alone when the prefix is empty.
pub open spec fn fq_id(prefix: Seq<char>, id: Seq<char>) -> Seq<char> {
    if prefix.len() == 0 {
        id
    } else {
        prefix + "."@ + id
    }
}

/// An attribute definition with its id replaced.
pub open spec fn with_id(a: AttributeView, new_id: Seq<char>) -> AttributeView {
    match a {
        AttributeView::Id {
            id,
            attr_type,
            brief,
            examples,
            tag,
            requirement_level,
            sampling_relevant,
            note,
            stability,
            deprecated,
            value,
        } => AttributeView::Id {
            id: new_id,
            attr_type,
            brief,
            examples,
            tag,
            requirement_level,
            sampling_relevant,
            note,
            stability,
            deprecated,
            value,
        },
        AttributeView::Ref { .. } => a,
    }
}

/// What the processing of a group's attributes builds: the catalog's
/// attributes, the ids of the group, the references left to check.
pub struct AttrsState {
    /// The attributes of the catalog, by fully qualified id.
    pub attributes: Map<Seq<char>, AttributeView>,
    /// The attribute ids of the group.
    pub ids: Set<Seq<char>>,
    /// The references to check.
    pub pending: Seq<PendingRef>,
}

/// Processing one attribute of a group: a definition enters the catalog under
/// its fully qualified id (an error if the id is taken; the new definition is
/// stored all the same); a reference is recorded to be checked later.
pub open spec fn attr_step(
    st: AttrsState,
    path: Seq<char>,
    gid: Seq<char>,
    prefix: Seq<char>,
    a: AttributeView,
) -> (AttrsState, Option<ErrorView>) {
    match a {
        AttributeView::Id { id, .. } => {
            let fq = fq_id(prefix, id);
            let attributes = st.attributes.insert(fq, with_id(a, fq));
            if st.attributes.contains_key(fq) {
                (
                    AttrsState { attributes, ids: st.ids, pending: st.pending },
                    Some(ErrorView::DuplicateAttributeId { path_or_url: path, id: fq }),
                )
            } else {
                (AttrsState { attributes, ids: st.ids.insert(fq), pending: st.pending }, None)
            }
        },
        AttributeView::Ref { reference, .. } => (
            AttrsState {
                attributes: st.attributes,
                ids: st.ids.insert(reference),
                pending: st.pending.push(PendingRef { path_or_url: path, group_id: gid, reference }),
            },
            None,
        ),
    }
}

/// Processing the attributes of a group in order, stopping at the first error.
pub open spec fn attrs_fold(
    st: AttrsState,
    path: Seq<char>,
    gid: Seq<char>,
    prefix: Seq<char>,
    s: Seq<AttributeView>,
) -> (AttrsState, Option<ErrorView>)
    decreases s.len(),
{
    if s.len() == 0 {
        (st, None)
    } else {
        let (st1, e1) = attrs_fold(st, path, gid, prefix, s.drop_last());
        if e1 is Some {
            (st1, e1)
        } else {
            attr_step(st1, path, gid, prefix, s.last())
        }
    }
}

proof fn lemma_attrs_fold_error_sticks(
    st: AttrsState,
    path: Seq<char>,
    gid: Seq<char>,
    prefix: Seq<char>,
    s: Seq<AttributeView>,
    k: int,
)
    requires
        0 <= k <= s.len(),
        attrs_fold(st, path, gid, prefix, s.subrange(0, k)).1 is Some,
    ensures
        attrs_fold(st, path, gid, prefix, s) == attrs_fold(st, path, gid, prefix, s.subrange(0, k)),
    decreases s.len() - k,
{
    if k < s.len() {
        assert(s.subrange(0, k + 1).drop_last() == s.subrange(0, k));
        lemma_attrs_fold_error_sticks(st, path, gid, prefix, s, k + 1);
    } else {
        assert(s.subrange(0, k) == s);
    }
}

impl SemConvCatalog {
    /// Processes a collection of attributes passed as a parameter (`attrs`),
    /// adds attributes fully defined to the catalog, adds attributes with
    /// a reference to the list of attributes to resolve and returns a
    /// collection of attribute ids defined in the current group.
    fn process_attributes(
        &mut self,
        path_or_url: String,
        group_id: String,
        prefix: String,
        attrs: Vec<Attribute>,
        attributes_to_resolve: &mut Vec<AttributeToResolve>,
    ) -> (r: Result<KeyMap<()>, Error>)
        ensures
            ({
                let (st, e) = attrs_fold(
                    AttrsState {
                        attributes: old(self).attributes(),
                        ids: Set::empty(),
                        pending: old(attributes_to_resolve)@.map_values(|a: AttributeToResolve| a@),
                    },
                    path_or_url@,
                    group_id@,
                    prefix@,
                    attrs_view(attrs@),
                );
                &&& final(self).attributes() == st.attributes
                &&& match e {
                    Some(x) => r matches Err(err) && err@ == x,
                    None => r matches Ok(ids) && ids@.dom() == st.ids && final(attributes_to_resolve)@.map_values(
                        |a: AttributeToResolve| a@,
                    ) == st.pending,
                }
            }),
            final(self).metrics() == old(self).metrics(),
            forall|t: ConvType| #[trigger] final(self).table(t) == old(self).table(t),
            final(self).specs() == old(self).specs(),
            final(self).specs == old(self).specs,
            final(self).all_metrics == old(self).all_metrics,
            final(self).resource_group_attributes == old(self).resource_group_attributes,
            final(self).attr_grp_group_attributes == old(self).attr_grp_group_attributes,
            final(self).span_group_attributes == old(self).span_group_attributes,
            final(self).event_group_attributes == old(self).event_group_attributes,
            final(self).metric_group_attributes == old(self).metric_group_attributes,
            final(self).metric_group_group_attributes == old(self).metric_group_group_attributes,
    {
        let ghost s = attrs_view(attrs@);
        let ghost st0 = AttrsState {
            attributes: self.attributes(),
            ids: Set::empty(),
            pending: attributes_to_resolve@.map_values(|a: AttributeToResolve| a@),
        };
        let mut attributes_in_group: KeyMap<()> = KeyMap::new();
        let ghost orig = attrs@;
        let mut remaining = attrs;
        let ghost mut k: int = 0;
        let ghost n: int = s.len() as int;
        proof {
            assert(attrs@ =~= orig.subrange(0, n));
        }
        while remaining.len() > 0
            invariant
                0 <= k <= n,
                n == s.len(),
                s == attrs_view(orig),
                remaining@ == orig.subrange(k, n),
                orig == attrs@,
                ({
                    let (st, e) = attrs_fold(st0, path_or_url@, group_id@, prefix@, s.subrange(0, k));
                    &&& e is None
                    &&& self.attributes() == st.attributes
                    &&& attributes_in_group@.dom() == st.ids
                    &&& attributes_to_resolve@.map_values(|a: AttributeToResolve| a@) == st.pending
                }),
                st0 == (AttrsState {
                    attributes: old(self).attributes(),
                    ids: Set::empty(),
                    pending: old(attributes_to_resolve)@.map_values(|a: AttributeToResolve| a@),
                }),
                self.all_metrics == old(self).all_metrics,
                self.specs == old(self).specs,
                self.resource_group_attributes == old(self).resource_group_attributes,
                self.attr_grp_group_attributes == old(self).attr_grp_group_attributes,
                self.span_group_attributes == old(self).span_group_attributes,
                self.event_group_attributes == old(self).event_group_attributes,
                self.metric_group_attributes == old(self).metric_group_attributes,
                self.metric_group_group_attributes == old(self).metric_group_group_attributes,
            decreases remaining@.len(),
        {
            let attr = remaining.remove(0);
            let ghost prev = attrs_fold(st0, path_or_url@, group_id@, prefix@, s.subrange(0, k));
            proof {
                assert(attr == orig[k]);
                assert(s.subrange(0, k + 1).drop_last() == s.subrange(0, k));
                assert(s.subrange(0, k + 1).last() == attr@);
            }
            match attr {
                Attribute::Id {
                    id,
                    attr_type,
                    brief,
                    examples,
                    tag,
                    requirement_level,
                    sampling_relevant,
                    note,
                    stability,
                    deprecated,
                    value,
                } => {
                    // The fully qualified attribute id is the concatenation
                    // of the prefix and the attribute id (separated by a dot).
                    let fq_attr_id: String = if prefix.as_str().unicode_len() == 0 {
                        id.clone()
                    } else {
                        let mut f = prefix.clone();
                        f.append(".");
                        f.append(id.as_str());
                        f
                    };
                    let renamed = Attribute::Id {
                        id: fq_attr_id.clone(),
                        attr_type,
                        brief,
                        examples,
                        tag,
                        requirement_level,
                        sampling_relevant,
                        note,
                        stability,
                        deprecated,
                        value,
                    };
                    assert(fq_attr_id@ == fq_id(prefix@, id@));
                    assert(renamed@ == with_id(s[k], fq_attr_id@));
                    let prev_val = self.all_attributes.insert(fq_attr_id.clone(), renamed);
                    proof {
                        assert(self.attributes() =~= prev.0.attributes.insert(
                            fq_attr_id@,
                            with_id(s[k], fq_attr_id@),
                        ));
                    }
                    if prev_val.is_some() {
                        proof {
                            assert(prev.0.attributes.contains_key(fq_attr_id@));
                            k = k + 1;
                            lemma_attrs_fold_error_sticks(st0, path_or_url@, group_id@, prefix@, s, k);
                            let whole = attrs_fold(st0, path_or_url@, group_id@, prefix@, s);
                            assert(whole.0.attributes == self.attributes());
                            assert(whole.1 == Some(ErrorView::DuplicateAttributeId { path_or_url: path_or_url@, id: fq_attr_id@ }));
                        }
                        let err = Error::DuplicateAttributeId { path_or_url: path_or_url.clone(), id: fq_attr_id };
                        proof {
                            let (st, e) = attrs_fold(
                                AttrsState {
                                    attributes: old(self).attributes(),
                                    ids: Set::empty(),
                                    pending: old(attributes_to_resolve)@.map_values(|a: AttributeToResolve| a@),
                                },
                                path_or_url@,
                                group_id@,
                                prefix@,
                                attrs_view(orig),
                            );
                            assert(self.attributes() == st.attributes);
                            assert(e == Some(err@));
                        }
                        return Err(err);
                    }
                    let _ = attributes_in_group.insert(fq_attr_id, ());
                },
                Attribute::Ref { reference, .. } => {
                    let ghost before = attributes_to_resolve@;
                    attributes_to_resolve.push(AttributeToResolve {
                        path_or_url: path_or_url.clone(),
                        group_id: group_id.clone(),
                        reference: reference.clone(),
                    });
                    proof {
                        assert(attributes_to_resolve@.map_values(|a: AttributeToResolve| a@) =~= before.map_values(
                            |a: AttributeToResolve| a@,
                        ).push(PendingRef { path_or_url: path_or_url@, group_id: group_id@, reference: reference@ }));
                    }
                    let _ = attributes_in_group.insert(reference, ());
                },
            }
            proof {
                k = k + 1;
                assert(remaining@ =~= orig.subrange(k, n));
            }
        }
        proof {
            assert(s.subrange(0, n) == s);
        }
        Ok(attributes_in_group)
    }
}

/// What resolving builds while it goes through the groups.
pub struct CatalogState {
    /// The attributes of the catalog, by fully qualified id.
    pub attributes: Map<Seq<char>, AttributeView>,
    /// The metrics of the catalog, by name.
    pub metrics: Map<Seq<char>, MetricView>,
    /// For each group type, the attribute ids of its groups, by group id.
    pub tables: Map<ConvType, Map<Seq<char>, GroupIdsView>>,
    /// The attribute references to check, in order.
    pub pending: Seq<PendingRef>,
    /// The metrics that extend a convention (metric name, id of the extended
    /// convention), in order.
    pub extends: Seq<(Seq<char>, Seq<char>)>,
}

/// The metric that a metric group defines.
pub open spec fn group_metric(name: Seq<char>, g: GroupView) -> MetricView {
    MetricView {
        name,
        brief: g.brief,
        note: g.note,
        attributes: g.attributes,
        instrument: g.instrument,
        unit: g.unit,
    }
}

/// Processing the attributes of a group (every type but scope): its
/// attributes enter the catalog and the group's ids (none, maybe) are
/// recorded in the table of its type (an error if the
/// group id is already there; the new entry is stored all the same).
pub open spec fn group_attrs_step(st: CatalogState, path: Seq<char>, g: GroupView) -> (
    CatalogState,
    Option<ErrorView>,
) {
    if g.group_type == ConvType::Scope {
        (st, None)
    } else {
        let (a, e) = attrs_fold(
            AttrsState { attributes: st.attributes, ids: Set::empty(), pending: st.pending },
            path,
            g.id,
            g.prefix,
            g.attributes,
        );
        if e is Some {
            (
                CatalogState {
                    attributes: a.attributes,
                    metrics: st.metrics,
                    tables: st.tables,
                    pending: st.pending,
                    extends: st.extends,
                },
                e,
            )
        } else {
            let table = st.tables[g.group_type];
            let st2 = CatalogState {
                attributes: a.attributes,
                metrics: st.metrics,
                tables: st.tables.insert(
                    g.group_type,
                    table.insert(g.id, GroupIdsView { origin: path, ids: a.ids }),
                ),
                pending: a.pending,
                extends: st.extends,
            };
            if table.contains_key(g.id) {
                (
                    st2,
                    Some(
                        ErrorView::DuplicateGroupId {
                            path_or_url: path,
                            id: g.id,
                            origin: table[g.id].origin,
                        },
                    ),
                )
            } else {
                (st2, None)
            }
        }
    }
}

/// Processing the metric of a metric group: the group needs a metric name;
/// the metric enters the catalog under it (an error if the name is taken; the
/// new metric is stored all the same), and is recorded as extending the
/// convention that the group's `extends` names, if any.
pub open spec fn group_metric_step(st: CatalogState, path: Seq<char>, g: GroupView) -> (
    CatalogState,
    Option<ErrorView>,
) {
    if g.group_type != ConvType::Metric {
        (st, None)
    } else {
        match g.metric_name {
            None => (
                st,
                Some(
                    ErrorView::InvalidMetric {
                        path_or_url: path,
                        group_id: g.id,
                        error: "Metric without name"@,
                    },
                ),
            ),
            Some(name) => {
                let st2 = CatalogState {
                    attributes: st.attributes,
                    metrics: st.metrics.insert(name, group_metric(name, g)),
                    tables: st.tables,
                    pending: st.pending,
                    extends: st.extends,
                };
                if st.metrics.contains_key(name) {
                    (st2, Some(ErrorView::DuplicateMetricName { path_or_url: path, name }))
                } else {
                    match g.extends {
                        Some(r) => (
                            CatalogState {
                                attributes: st2.attributes,
                                metrics: st2.metrics,
                                tables: st2.tables,
                                pending: st2.pending,
                                extends: st2.extends.push((name, r)),
                            },
                            None,
                        ),
                        None => (st2, None),
                    }
                }
            },
        }
    }
}

/// Processing one group: its attributes, then its metric.
pub open spec fn group_step(st: CatalogState, path: Seq<char>, g: GroupView) -> (
    CatalogState,
    Option<ErrorView>,
) {
    let (st1, e1) = group_attrs_step(st, path, g);
    if e1 is Some {
        (st1, e1)
    } else {
        group_metric_step(st1, path, g)
    }
}

/// Processing the groups of a specification in order, stopping at the first error.
pub open spec fn groups_fold(st: CatalogState, path: Seq<char>, gs: Seq<GroupView>) -> (
    CatalogState,
    Option<ErrorView>,
)
    decreases gs.len(),
{
    if gs.len() == 0 {
        (st, None)
    } else {
        let (st1, e1) = groups_fold(st, path, gs.drop_last());
        if e1 is Some {
            (st1, e1)
        } else {
            group_step(st1, path, gs.last())
        }
    }
}

/// Processing the specifications in order, stopping at the first error.
pub open spec fn specs_fold(st: CatalogState, specs: Seq<(Seq<char>, Seq<GroupView>)>) -> (
    CatalogState,
    Option<ErrorView>,
)
    decreases specs.len(),
{
    if specs.len() == 0 {
        (st, None)
    } else {
        let (st1, e1) = specs_fold(st, specs.drop_last());
        if e1 is Some {
            (st1, e1)
        } else {
            groups_fold(st1, specs.last().0, specs.last().1)
        }
    }
}

/// The references, in order, to attributes that are not in the catalog.
pub open spec fn missing_refs(attrs: Map<Seq<char>, AttributeView>, pending: Seq<PendingRef>) -> Seq<
    PendingRef,
>
    decreases pending.len(),
{
    if pending.len() == 0 {
        Seq::empty()
    } else {
        let rest = missing_refs(attrs, pending.drop_last());
        if attrs.contains_key(pending.last().reference) {
            rest
        } else {
            rest.push(pending.last())
        }
    }
}

/// The error reported for a reference to a missing attribute.
pub open spec fn ref_error(p: PendingRef) -> ErrorView {
    ErrorView::InvalidAttribute {
        path_or_url: p.path_or_url,
        group_id: p.group_id,
        error: "Attribute reference '"@ + p.reference + "' not found"@,
    }
}

/// The attributes of the first group of a sequence whose id is `id`, if any.
pub open spec fn first_group_attrs(gs: Seq<GroupView>, id: Seq<char>) -> Option<Seq<AttributeView>>
    decreases gs.len(),
{
    if gs.len() == 0 {
        None
    } else {
        match first_group_attrs(gs.drop_last(), id) {
            Some(a) => Some(a),
            None => if gs.last().id == id {
                Some(gs.last().attributes)
            } else {
                None
            },
        }
    }
}

/// The attributes of the first group, in the order of the specifications,
/// whose id is `id` (whatever the group's type), if any.
pub open spec fn group_attrs_of(specs: Seq<(Seq<char>, Seq<GroupView>)>, id: Seq<char>) -> Option<
    Seq<AttributeView>,
>
    decreases specs.len(),
{
    if specs.len() == 0 {
        None
    } else {
        match group_attrs_of(specs.drop_last(), id) {
            Some(a) => Some(a),
            None => first_group_attrs(specs.last().1, id),
        }
    }
}

/// The metrics after each extending metric takes in the attributes of the
/// convention it extends: the attributes defined by the group whose id the
/// metric's `extends` names, whatever the group's type (nothing when no
/// loaded group has that id).
pub open spec fn extend_metrics(
    metrics: Map<Seq<char>, MetricView>,
    ext: Seq<(Seq<char>, Seq<char>)>,
    specs: Seq<(Seq<char>, Seq<GroupView>)>,
) -> Map<Seq<char>, MetricView>
    decreases ext.len(),
{
    if ext.len() == 0 {
        metrics
    } else {
        let m = extend_metrics(metrics, ext.drop_last(), specs);
        let name = ext.last().0;
        match group_attrs_of(specs, ext.last().1) {
            Some(inherited) => if m.contains_key(name) {
                m.insert(
                    name,
                    MetricView {
                        name: m[name].name,
                        brief: m[name].brief,
                        note: m[name].note,
                        attributes: m[name].attributes + inherited,
                        instrument: m[name].instrument,
                        unit: m[name].unit,
                    },
                )
            } else {
                m
            },
            None => m,
        }
    }
}

/// The attributes of a list, by content, if there is a list.
pub open spec fn opt_attrs_view(o: Option<&Vec<Attribute>>) -> Option<Seq<AttributeView>> {
    match o {
        Some(v) => Some(attrs_view(v@)),
        None => None,
    }
}

/// The attributes of the first loaded group whose id is `id`.
fn find_group_attributes<'a>(specs: &'a Vec<(String, SemConvSpec)>, id: &str) -> (r: Option<&'a Vec<Attribute>>)
    ensures
        opt_attrs_view(r) == group_attrs_of(specs_view(specs@), id@),
{
    let ghost sv = specs_view(specs@);
    let mut found: Option<&'a Vec<Attribute>> = None;
    let mut i: usize = 0;
    proof {
        assert(sv.subrange(0, 0) =~= Seq::<(Seq<char>, Seq<GroupView>)>::empty());
    }
    while i < specs.len()
        invariant
            i <= specs@.len(),
            sv == specs_view(specs@),
            opt_attrs_view(found) == group_attrs_of(sv.subrange(0, i as int), id@),
        decreases specs@.len() - i,
    {
        let groups: &'a Vec<Group> = &specs[i].1.groups;
        let ghost gv = sv[i as int].1;
        let ghost before = group_attrs_of(sv.subrange(0, i as int), id@);
        proof {
            assert(gv == groups_view(groups@));
            assert(gv.subrange(0, 0) =~= Seq::<GroupView>::empty());
        }
        let mut j: usize = 0;
        while j < groups.len()
            invariant
                i < specs@.len(),
                j <= groups@.len(),
                gv == groups_view(groups@),
                before == group_attrs_of(sv.subrange(0, i as int), id@),
                opt_attrs_view(found) == match before {
                    Some(a) => Some(a),
                    None => first_group_attrs(gv.subrange(0, j as int), id@),
                },
            decreases groups@.len() - j,
        {
            proof {
                assert(gv.subrange(0, j + 1).drop_last() =~= gv.subrange(0, j as int));
                assert(gv.subrange(0, j + 1).last() == groups@[j as int]@);
            }
            if found.is_none() {
                let gid = groups[j].id.clone();
                if same_text(&gid, id) {
                    found = Some(&groups[j].attributes);
                }
            }
            j = j + 1;
        }
        proof {
            assert(gv.subrange(0, j as int) == gv);
            assert(sv.subrange(0, i + 1).drop_last() =~= sv.subrange(0, i as int));
            assert(sv.subrange(0, i + 1).last() == sv[i as int]);
        }
        i = i + 1;
    }
    proof {
        assert(sv.subrange(0, i as int) == sv);
    }
    found
}

impl SemConvCatalog {
    /// The attribute ids of the groups of each type, by group id.
    pub open spec fn tables(&self) -> Map<ConvType, Map<Seq<char>, GroupIdsView>> {
        Map::new(|t: ConvType| true, |t: ConvType| self.table(t))
    }

    /// The state resolving starts from.
    pub open spec fn start_state(&self) -> CatalogState {
        CatalogState {
            attributes: self.attributes(),
            metrics: self.metrics(),
            tables: self.tables(),
            pending: Seq::empty(),
            extends: Seq::empty(),
        }
    }
}

/// The state that a catalog and the lists being built denote.
spec fn state_of(
    c: SemConvCatalog,
    pending: Seq<AttributeToResolve>,
    ext: Seq<(String, String)>,
) -> CatalogState {
    CatalogState {
        attributes: c.attributes(),
        metrics: c.metrics(),
        tables: c.tables(),
        pending: pending.map_values(|a: AttributeToResolve| a@),
        extends: ext.map_values(|p: (String, String)| (p.0@, p.1@)),
    }
}

proof fn lemma_groups_fold_error_sticks(st: CatalogState, path: Seq<char>, s: Seq<GroupView>, k: int)
    requires
        0 <= k <= s.len(),
        groups_fold(st, path, s.subrange(0, k)).1 is Some,
    ensures
        groups_fold(st, path, s) == groups_fold(st, path, s.subrange(0, k)),
    decreases s.len() - k,
{
    if k < s.len() {
        assert(s.subrange(0, k + 1).drop_last() == s.subrange(0, k));
        lemma_groups_fold_error_sticks(st, path, s, k + 1);
    } else {
        assert(s.subrange(0, k) == s);
    }
}

proof fn lemma_specs_fold_error_sticks(st: CatalogState, s: Seq<(Seq<char>, Seq<GroupView>)>, k: int)
    requires
        0 <= k <= s.len(),
        specs_fold(st, s.subrange(0, k)).1 is Some,
    ensures
        specs_fold(st, s) == specs_fold(st, s.subrange(0, k)),
    decreases s.len() - k,
{
    if k < s.len() {
        assert(s.subrange(0, k + 1).drop_last() == s.subrange(0, k));
        lemma_specs_fold_error_sticks(st, s, k + 1);
    } else {
        assert(s.subrange(0, k) == s);
    }
}

impl SemConvCatalog {
    /// Records the attribute ids of a group in the table of its type, handing
    /// back the entry it replaces, if any.
    fn insert_group_ids(&mut self, t: ConvType, id: String, ids: GroupIds) -> (r: Option<GroupIds>)
        requires
            t != ConvType::Scope,
        ensures
            final(self).tables() == old(self).tables().insert(t, old(self).table(t).insert(id@, ids@)),
            match r {
                Some(p) => old(self).table(t).contains_key(id@) && p@ == old(self).table(t)[id@],
                None => !old(self).table(t).contains_key(id@),
            },
            final(self).attributes() == old(self).attributes(),
            final(self).all_attributes == old(self).all_attributes,
            final(self).all_metrics == old(self).all_metrics,
            final(self).specs == old(self).specs,
    {
        let ghost v = ids@;
        let ghost key = id@;
        let r = match t {
            ConvType::AttributeGroup => self.attr_grp_group_attributes.insert(id, ids),
            ConvType::Span => self.span_group_attributes.insert(id, ids),
            ConvType::Event => self.event_group_attributes.insert(id, ids),
            ConvType::Metric => self.metric_group_attributes.insert(id, ids),
            ConvType::MetricGroup => self.metric_group_group_attributes.insert(id, ids),
            ConvType::Resource => self.resource_group_attributes.insert(id, ids),
            ConvType::Scope => None,
        };
        proof {
            assert forall|u: ConvType| #[trigger] self.table(u) == old(self).tables().insert(
                t,
                old(self).table(t).insert(key, v),
            )[u] by {
                if u == t {
                    match t {
                        ConvType::AttributeGroup => {
                            assert(tables_view(self.attr_grp_group_attributes@) =~= tables_view(
                                old(self).attr_grp_group_attributes@,
                            ).insert(key, v));
                        },
                        ConvType::Span => {
                            assert(tables_view(self.span_group_attributes@) =~= tables_view(
                                old(self).span_group_attributes@,
                            ).insert(key, v));
                        },
                        ConvType::Event => {
                            assert(tables_view(self.event_group_attributes@) =~= tables_view(
                                old(self).event_group_attributes@,
                            ).insert(key, v));
                        },
                        ConvType::Metric => {
                            assert(tables_view(self.metric_group_attributes@) =~= tables_view(
                                old(self).metric_group_attributes@,
                            ).insert(key, v));
                        },
                        ConvType::MetricGroup => {
                            assert(tables_view(self.metric_group_group_attributes@) =~= tables_view(
                                old(self).metric_group_group_attributes@,
                            ).insert(key, v));
                        },
                        ConvType::Resource => {
                            assert(tables_view(self.resource_group_attributes@) =~= tables_view(
                                old(self).resource_group_attributes@,
                            ).insert(key, v));
                        },
                        ConvType::Scope => {},
                    }
                }
            }
            assert(self.tables() =~= old(self).tables().insert(t, old(self).table(t).insert(key, v)));
        }
        r
    }

    /// Processes one group of a specification: its attributes and its metric.
    fn process_group(
        &mut self,
        path_or_url: &String,
        group: &Group,
        attributes_to_resolve: &mut Vec<AttributeToResolve>,
        extends: &mut Vec<(String, String)>,
    ) -> (r: Result<(), Error>)
        ensures
            ({
                let (st, e) = group_step(
                    state_of(*old(self), old(attributes_to_resolve)@, old(extends)@),
                    path_or_url@,
                    group@,
                );
                &&& final(self).attributes() == st.attributes
                &&& final(self).metrics() == st.metrics
                &&& final(self).tables() == st.tables
                &&& match e {
                    Some(x) => r matches Err(err) && err@ == x,
                    None => r is Ok && state_of(*final(self), final(attributes_to_resolve)@, final(extends)@)
                        == st,
                }
            }),
            final(self).specs == old(self).specs,
    {
        let ghost st0 = state_of(*self, attributes_to_resolve@, extends@);
        let ghost g = group@;
        // Process attributes
        if group.group_type != ConvType::Scope {
            let attrs = clone_attributes(&group.attributes);
            let ghost before = *self;
            let res = self.process_attributes(
                path_or_url.clone(),
                group.id.clone(),
                group.prefix.clone(),
                attrs,
                attributes_to_resolve,
            );
            proof {
                assert(self.tables() =~= before.tables());
                assert(self.metrics() == before.metrics());
            }
            match res {
                Err(e) => {
                    return Err(e);
                },
                Ok(attributes_in_group) => {
                    let ghost mid = *self;
                    let prev = self.insert_group_ids(
                        group.group_type,
                        group.id.clone(),
                        GroupIds { origin: path_or_url.clone(), ids: attributes_in_group },
                    );
                    proof {
                        assert(self.metrics() == mid.metrics());
                    }
                    let checked = Self::detect_duplicated_group(path_or_url.clone(), group.id.clone(), prev);
                    if checked.is_err() {
                        return checked;
                    }
                },
            }
        }
        let ghost st1 = state_of(*self, attributes_to_resolve@, extends@);
        assert(st1 == group_attrs_step(st0, path_or_url@, g).0);
        // Process metrics
        if group.group_type == ConvType::Metric {
            let metric_name = match &group.metric_name {
                Some(metric_name) => metric_name.clone(),
                None => {
                    return Err(Error::InvalidMetric {
                        path_or_url: path_or_url.clone(),
                        group_id: group.id.clone(),
                        error: "Metric without name".to_owned(),
                    });
                },
            };
            let metric = Metric {
                name: metric_name.clone(),
                brief: group.brief.clone(),
                note: group.note.clone(),
                attributes: clone_attributes(&group.attributes),
                instrument: group.instrument,
                unit: clone_opt_text(&group.unit),
            };
            assert(metric@ == group_metric(metric_name@, g));
            let ghost before = *self;
            let prev_val = self.all_metrics.insert(metric_name.clone(), metric);
            proof {
                assert(self.metrics() =~= before.metrics().insert(metric_name@, group_metric(metric_name@, g)));
                assert(self.tables() =~= before.tables());
            }
            if prev_val.is_some() {
                return Err(Error::DuplicateMetricName { path_or_url: path_or_url.clone(), name: metric_name });
            }
            match &group.extends {
                Some(r) => {
                    let ghost eb = extends@;
                    extends.push((metric_name, r.clone()));
                    proof {
                        assert(extends@.map_values(|p: (String, String)| (p.0@, p.1@)) =~= eb.map_values(
                            |p: (String, String)| (p.0@, p.1@),
                        ).push((metric_name@, r@)));
                    }
                },
                None => {},
            }
        }
        Ok(())
    }
}


proof fn lemma_missing_refs_prefix(attrs: Map<Seq<char>, AttributeView>, s: Seq<PendingRef>, k: int)
    requires
        0 <= k <= s.len(),
    ensures
        missing_refs(attrs, s.subrange(0, k)).len() <= missing_refs(attrs, s).len(),
        forall|i: int|
            0 <= i < missing_refs(attrs, s.subrange(0, k)).len() ==> missing_refs(attrs, s)[i]
                == #[trigger] missing_refs(attrs, s.subrange(0, k))[i],
    decreases s.len() - k,
{
    if k < s.len() {
        assert(s.subrange(0, k + 1).drop_last() == s.subrange(0, k));
        lemma_missing_refs_prefix(attrs, s, k + 1);
        let a = missing_refs(attrs, s.subrange(0, k));
        let b = missing_refs(attrs, s.subrange(0, k + 1));
        assert forall|i: int| 0 <= i < a.len() implies missing_refs(attrs, s)[i] == #[trigger] a[i] by {
            assert(b[i] == a[i]);
        }
    } else {
        assert(s.subrange(0, k) == s);
    }
}

impl SemConvCatalog {
    /// Resolves all the references present in the semantic convention catalog.
    ///
    /// The groups of the loaded specifications are processed in order: their
    /// attributes, attribute ids and metrics enter the catalog. Then every
    /// attribute reference is checked: one to an attribute that is not in the
    /// catalog is an error when `config` says so (the first such reference),
    /// else a warning. Then every metric that extends a convention takes in
    /// the attributes defined by the group with that id (whatever its type),
    /// and the specifications are dropped.
    ///
    /// On an error the catalog keeps what was processed before it, and its
    /// specifications.
    pub fn resolve(&mut self, config: ResolverConfig) -> (r: Result<Vec<ResolverWarning>, Error>)
        ensures
            ({
                let (st, e) = specs_fold(old(self).start_state(), old(self).specs());
                let missing = missing_refs(st.attributes, st.pending);
                &&& final(self).attributes() == st.attributes
                &&& final(self).tables() == st.tables
                &&& match e {
                    Some(x) => r matches Err(err) && err@ == x && final(self).metrics() == st.metrics
                        && final(self).specs() == old(self).specs(),
                    None => if config.error_when_attribute_ref_not_found && missing.len() > 0 {
                        r matches Err(err) && err@ == ref_error(missing[0]) && final(self).metrics()
                            == st.metrics && final(self).specs() == old(self).specs()
                    } else {
                        r matches Ok(w) && w@.len() == missing.len() && (forall|i: int|
                            0 <= i < w@.len() ==> (#[trigger] w@[i]).error@ == ref_error(missing[i]))
                            && final(self).metrics() == extend_metrics(st.metrics, st.extends, old(self).specs())
                            && final(self).specs().len() == 0
                    },
                }
            }),
    {
        let ghost st0 = self.start_state();
        let ghost sv = self.specs();
        let mut specs: Vec<(String, SemConvSpec)> = Vec::new();
        std::mem::swap(&mut specs, &mut self.specs);
        let mut attributes_to_resolve: Vec<AttributeToResolve> = Vec::new();
        let mut extends: Vec<(String, String)> = Vec::new();
        proof {
            assert(attributes_to_resolve@.map_values(|a: AttributeToResolve| a@) =~= Seq::<PendingRef>::empty());
            assert(extends@.map_values(|p: (String, String)| (p.0@, p.1@)) =~= Seq::<(Seq<char>, Seq<char>)>::empty());
            assert(self.tables() =~= old(self).tables());
            assert(state_of(*self, attributes_to_resolve@, extends@) == st0);
            assert(sv.subrange(0, 0) =~= Seq::<(Seq<char>, Seq<GroupView>)>::empty());
        }
        // Add all the attributes with an id to the catalog.
        let mut i: usize = 0;
        while i < specs.len()
            invariant
                i <= specs@.len(),
                sv == specs_view(specs@),
                sv == old(self).specs(),
                st0 == old(self).start_state(),
                specs_fold(st0, sv.subrange(0, i as int)).1 is None,
                state_of(*self, attributes_to_resolve@, extends@) == specs_fold(
                    st0,
                    sv.subrange(0, i as int),
                ).0,
                self.specs@.len() == 0,
            decreases specs@.len() - i,
        {
            let path_or_url: &String = &specs[i].0;
            let groups: &Vec<Group> = &specs[i].1.groups;
            let ghost si = specs_fold(st0, sv.subrange(0, i as int)).0;
            let ghost gv = sv[i as int].1;
            proof {
                assert(gv == groups_view(groups@));
                assert(sv[i as int].0 == path_or_url@);
                assert(gv.subrange(0, 0) =~= Seq::<GroupView>::empty());
            }
            let mut j: usize = 0;
            while j < groups.len()
                invariant
                    i < specs@.len(),
                    j <= groups@.len(),
                    sv == specs_view(specs@),
                    sv == old(self).specs(),
                    st0 == old(self).start_state(),
                    groups@ == specs@[i as int].1.groups@,
                    gv == sv[i as int].1,
                    gv == groups_view(groups@),
                    sv[i as int].0 == path_or_url@,
                    si == specs_fold(st0, sv.subrange(0, i as int)).0,
                    specs_fold(st0, sv.subrange(0, i as int)).1 is None,
                    groups_fold(si, path_or_url@, gv.subrange(0, j as int)).1 is None,
                    state_of(*self, attributes_to_resolve@, extends@) == groups_fold(
                        si,
                        path_or_url@,
                        gv.subrange(0, j as int),
                    ).0,
                    self.specs@.len() == 0,
                decreases groups@.len() - j,
            {
                proof {
                    assert(gv.subrange(0, j + 1).drop_last() =~= gv.subrange(0, j as int));
                    assert(gv.subrange(0, j + 1).last() == groups@[j as int]@);
                }
                let res = self.process_group(path_or_url, &groups[j], &mut attributes_to_resolve, &mut extends);
                match res {
                    Err(e) => {
                        proof {
                            lemma_groups_fold_error_sticks(si, path_or_url@, gv, j + 1);
                            assert(gv.subrange(0, gv.len() as int) == gv);
                            assert(sv.subrange(0, i + 1).drop_last() =~= sv.subrange(0, i as int));
                            assert(sv.subrange(0, i + 1).last() == sv[i as int]);
                            lemma_specs_fold_error_sticks(st0, sv, i + 1);
                        }
                        self.specs = specs;
                        return Err(e);
                    },
                    Ok(()) => {},
                }
                j = j + 1;
            }
            proof {
                assert(gv.subrange(0, j as int) == gv);
                assert(sv.subrange(0, i + 1).drop_last() =~= sv.subrange(0, i as int));
                assert(sv.subrange(0, i + 1).last() == sv[i as int]);
            }
            i = i + 1;
        }
        proof {
            assert(sv.subrange(0, i as int) == sv);
        }
        let ghost st = specs_fold(st0, sv).0;
        let ghost pend = st.pending;
        // Resolve all the attributes with a reference.
        let mut warnings: Vec<ResolverWarning> = Vec::new();
        let mut k: usize = 0;
        proof {
            assert(pend.subrange(0, 0) =~= Seq::<PendingRef>::empty());
        }
        while k < attributes_to_resolve.len()
            invariant
                k <= attributes_to_resolve@.len(),
                pend == attributes_to_resolve@.map_values(|a: AttributeToResolve| a@),
                st == specs_fold(st0, sv).0,
                specs_fold(st0, sv).1 is None,
                sv == old(self).specs(),
                st0 == old(self).start_state(),
                sv == specs_view(specs@),
                state_of(*self, attributes_to_resolve@, extends@) == st,
                self.specs@.len() == 0,
                warnings@.len() == missing_refs(st.attributes, pend.subrange(0, k as int)).len(),
                forall|q: int|
                    0 <= q < warnings@.len() ==> (#[trigger] warnings@[q]).error@ == ref_error(
                        missing_refs(st.attributes, pend.subrange(0, k as int))[q],
                    ),
                config.error_when_attribute_ref_not_found ==> warnings@.len() == 0,
            decreases attributes_to_resolve@.len() - k,
        {
            let a: &AttributeToResolve = &attributes_to_resolve[k];
            proof {
                assert(pend.subrange(0, k + 1).drop_last() =~= pend.subrange(0, k as int));
                assert(pend.subrange(0, k + 1).last() == a@);
            }
            if !self.all_attributes.contains_key(a.reference.as_str()) {
                let mut msg: String = "Attribute reference '".to_owned();
                msg.append(a.reference.as_str());
                msg.append("' not found");
                let err = Error::InvalidAttribute {
                    path_or_url: a.path_or_url.clone(),
                    group_id: a.group_id.clone(),
                    error: msg,
                };
                if config.error_when_attribute_ref_not_found {
                    proof {
                        lemma_missing_refs_prefix(st.attributes, pend, k + 1);
                        assert(missing_refs(st.attributes, pend.subrange(0, k + 1))[0] == a@);
                    }
                    self.specs = specs;
                    return Err(err);
                }
                warnings.push(ResolverWarning { error: err });
            }
            k = k + 1;
        }
        proof {
            assert(pend.subrange(0, k as int) == pend);
        }
        // Resolve all the metrics with an `extends` field.
        let ghost ev = st.extends;
        let mut m: usize = 0;
        proof {
            assert(ev.subrange(0, 0) =~= Seq::<(Seq<char>, Seq<char>)>::empty());
        }
        while m < extends.len()
            invariant
                m <= extends@.len(),
                ev == extends@.map_values(|p: (String, String)| (p.0@, p.1@)),
                self.metrics() == extend_metrics(st.metrics, ev.subrange(0, m as int), sv),
                sv == specs_view(specs@),
                sv == old(self).specs(),
                self.attributes() == st.attributes,
                self.tables() == st.tables,
                self.specs@.len() == 0,
            decreases extends@.len() - m,
        {
            let name: &String = &extends[m].0;
            let target: &String = &extends[m].1;
            let ghost before = self.metrics();
            proof {
                assert(ev.subrange(0, m + 1).drop_last() =~= ev.subrange(0, m as int));
                assert(ev.subrange(0, m + 1).last() == (name@, target@));
            }
            let extra: Option<Vec<Attribute>> = match find_group_attributes(&specs, target.as_str()) {
                Some(inherited) => Some(clone_attributes(inherited)),
                None => None,
            };
            match extra {
                Some(mut extra) => {
                    let ghost ea = attrs_view(extra@);
                    let removed = self.all_metrics.remove(name.as_str());
                    match removed {
                        Some(mut metric) => {
                            let ghost mv = metric@;
                            metric.attributes.append(&mut extra);
                            proof {
                                assert(attrs_view(metric.attributes@) =~= mv.attributes + ea);
                            }
                            let ghost nv = metric@;
                            let _ = self.all_metrics.insert(name.clone(), metric);
                            proof {
                                assert(self.metrics() =~= before.insert(name@, nv));
                            }
                        },
                        None => {
                            proof {
                                assert(self.metrics() =~= before);
                            }
                        },
                    }
                },
                None => {},
            }
            m = m + 1;
        }
        proof {
            assert(ev.subrange(0, m as int) == ev);
            assert(self.specs() =~= Seq::<(Seq<char>, Seq<GroupView>)>::empty());
        }
        Ok(warnings)
    }
}

/// Whether one of the first `n` keys of a list of pairs is `k`.
spec fn key_among<V>(ids: Seq<(String, V)>, n: int, k: Seq<char>) -> bool {
    exists|j: int| 0 <= j < n && ids[j].0@ == k
}

/// The line that reports one invalid group: its index and the reason.
pub open spec fn violation_line(v: (int, Seq<char>)) -> Seq<char> {
    "groups["@ + decimal(v.0 as nat) + "]: "@ + v.1
}

/// The report of invalid groups: one line for each, in order.
pub open spec fn violations_text(vs: Seq<(int, Seq<char>)>) -> Seq<char>
    decreases vs.len(),
{
    if vs.len() == 0 {
        Seq::empty()
    } else if vs.len() == 1 {
        violation_line(vs[0])
    } else {
        violations_text(vs.drop_last()) + "\n"@ + violation_line(vs.last())
    }
}

/// The content of a list of validation errors.
pub open spec fn validation_errors_view(errs: Seq<(usize, ValidationError)>) -> Seq<(int, Seq<char>)> {
    errs.map_values(|p: (usize, ValidationError)| (p.0 as int, p.1.code@))
}

/// The text that reports a list of validation errors, one line for each.
pub fn validation_message(errs: &Vec<(usize, ValidationError)>) -> (r: String)
    ensures
        r@ == violations_text(validation_errors_view(errs@)),
{
    let ghost vs = validation_errors_view(errs@);
    let mut out = String::new();
    let mut i: usize = 0;
    proof {
        assert(vs.subrange(0, 0) =~= Seq::<(int, Seq<char>)>::empty());
    }
    while i < errs.len()
        invariant
            i <= errs@.len(),
            vs == validation_errors_view(errs@),
            out@ == violations_text(vs.subrange(0, i as int)),
        decreases errs@.len() - i,
    {
        proof {
            assert(vs.subrange(0, i + 1).drop_last() =~= vs.subrange(0, i as int));
            assert(vs.subrange(0, i + 1).last() == vs[i as int]);
        }
        if i > 0 {
            out.append("\n");
        }
        out.append("groups[");
        let n = decimal_text(errs[i].0);
        out.append(n.as_str());
        out.append("]: ");
        out.append(errs[i].1.code.as_str());
        proof {
            if i == 0 {
                assert(out@ =~= violation_line(vs[0]));
            } else {
                assert(out@ =~= violations_text(vs.subrange(0, i as int)) + "\n"@ + violation_line(vs[i as int]));
            }
        }
        i = i + 1;
    }
    proof {
        assert(vs.subrange(0, i as int) == vs);
    }
    out
}

impl SemConvCatalog {
    /// Adds a semantic convention specification, read from `path_or_url`,
    /// to the catalog once every group of it is valid; else the catalog is
    /// unchanged and the error reports each invalid group.
    pub fn add_spec(&mut self, path_or_url: String, spec: SemConvSpec) -> (r: Result<(), Error>)
        ensures
            violations(spec.groups@).len() == 0 ==> r is Ok && final(self).specs() == old(
                self,
            ).specs().push((path_or_url@, groups_view(spec.groups@))),
            violations(spec.groups@).len() > 0 ==> (r matches Err(e) && e@ == (ErrorView::InvalidCatalog {
                path_or_url: path_or_url@,
                line: None,
                column: None,
                error: violations_text(violations(spec.groups@)),
            })) && final(self).specs() == old(self).specs(),
            final(self).attributes() == old(self).attributes(),
            final(self).metrics() == old(self).metrics(),
            final(self).tables() == old(self).tables(),
    {
        match spec.validate() {
            Err(errs) => {
                proof {
                    assert(validation_errors_view(errs@) =~= violations(spec.groups@));
                }
                let error = validation_message(&errs);
                Err(Error::InvalidCatalog { path_or_url, line: None, column: None, error })
            },
            Ok(()) => {
                let ghost before = *self;
                let ghost entry = (path_or_url@, groups_view(spec.groups@));
                self.specs.push((path_or_url, spec));
                proof {
                    assert(self.specs() =~= before.specs().push(entry));
                    assert(self.tables() =~= before.tables());
                }
                Ok(())
            },
        }
    }

    /// Returns an attribute definition from its reference or `None` if the
    /// reference does not exist.
    pub fn get_attribute(&self, attr_ref: &str) -> (r: Option<&Attribute>)
        ensures
            match r {
                Some(a) => self.attributes().contains_key(attr_ref@) && a@ == self.attributes()[attr_ref@],
                None => !self.attributes().contains_key(attr_ref@),
            },
    {
        self.all_attributes.get(attr_ref)
    }

    /// Returns a metric definition from its name or `None` if the name does
    /// not exist.
    pub fn get_metric(&self, metric_name: &str) -> (r: Option<&Metric>)
        ensures
            match r {
                Some(m) => self.metrics().contains_key(metric_name@) && m@ == self.metrics()[metric_name@],
                None => !self.metrics().contains_key(metric_name@),
            },
    {
        self.all_metrics.get(metric_name)
    }

    /// The entry of a group id in the table of a group type.
    fn group_ids(&self, reference: &str, group_type: ConvType) -> (r: Option<&GroupIds>)
        requires
            group_type != ConvType::Scope,
        ensures
            match r {
                Some(g) => self.table(group_type).contains_key(reference@) && g@ == self.table(
                    group_type,
                )[reference@],
                None => !self.table(group_type).contains_key(reference@),
            },
    {
        match group_type {
            ConvType::AttributeGroup => self.attr_grp_group_attributes.get(reference),
            ConvType::Span => self.span_group_attributes.get(reference),
            ConvType::Event => self.event_group_attributes.get(reference),
            ConvType::Metric => self.metric_group_attributes.get(reference),
            ConvType::MetricGroup => self.metric_group_group_attributes.get(reference),
            ConvType::Resource => self.resource_group_attributes.get(reference),
            ConvType::Scope => None,
        }
    }

    /// Returns a map id -> attribute definition from an attribute group
    /// reference: the attributes of the catalog among the ids of the group
    /// `reference` of type `group_type`; an error if there is no such group.
    pub fn get_attributes<'a>(&'a self, reference: &str, group_type: ConvType) -> (r: Result<
        KeyMap<&'a Attribute>,
        Error,
    >)
        requires
            group_type != ConvType::Scope,
        ensures
            match r {
                Ok(m) => self.table(group_type).contains_key(reference@) && (forall|k: Seq<char>|
                    #[trigger] m@.contains_key(k) <==> self.table(group_type)[reference@].ids.contains(k)
                        && self.attributes().contains_key(k)) && (forall|k: Seq<char>|
                    #[trigger] m@.contains_key(k) ==> m@[k]@ == self.attributes()[k]),
                Err(e) => !self.table(group_type).contains_key(reference@) && e@ == (ErrorView::AttributeNotFound {
                    reference: reference@,
                }),
            },
    {
        let mut attributes: KeyMap<&'a Attribute> = KeyMap::new();
        match self.group_ids(reference, group_type) {
            Some(group_ids) => {
                let ghost ids = group_ids.ids.entries();
                let n = group_ids.ids.len();
                let mut i: usize = 0;
                while i < n
                    invariant
                        i <= n,
                        n == ids.len(),
                        ids == group_ids.ids.entries(),
                        group_ids.ids@ == entries_map(ids),
                        forall|k: Seq<char>|
                            #[trigger] attributes@.contains_key(k) <==> key_among(ids, i as int, k)
                                && self.attributes().contains_key(k),
                        forall|k: Seq<char>|
                            #[trigger] attributes@.contains_key(k) ==> attributes@[k]@ == self.attributes()[k],
                    decreases n - i,
                {
                    let (attr_id, _) = group_ids.ids.pair_at(i);
                    match self.all_attributes.get(attr_id.as_str()) {
                        Some(attr) => {
                            // Only the last definition of an attribute defined
                            // several times in the group is kept.
                            let _ = attributes.insert(attr_id.clone(), attr);
                        },
                        None => {},
                    }
                    proof {
                        assert forall|k: Seq<char>|
                            #[trigger] key_among(ids, i + 1, k) <==> (key_among(ids, i as int, k) || k
                                == ids[i as int].0@) by {
                            if k == ids[i as int].0@ {
                                assert(0 <= i < i + 1 && ids[i as int].0@ == k);
                            }
                            if exists|j: int| 0 <= j < i + 1 && ids[j].0@ == k {
                                let j = choose|j: int| 0 <= j < i + 1 && ids[j].0@ == k;
                                if j < i {
                                    assert(0 <= j < i && ids[j].0@ == k);
                                }
                            }
                        }
                    }
                    i = i + 1;
                }
                proof {
                    assert forall|k: Seq<char>|
                        #[trigger] attributes@.contains_key(k) <==> self.table(group_type)[reference@].ids.contains(k)
                            && self.attributes().contains_key(k) by {
                        lemma_entries_map_contains(ids, k);
                    }
                }
                Ok(attributes)
            },
            None => Err(Error::AttributeNotFound { reference: reference.to_owned() }),
        }
    }

    /// Returns an error if `prev_group_ids` is not `None`.
    fn detect_duplicated_group(path_or_url: String, group_id: String, prev_group_ids: Option<GroupIds>) -> (r:
        Result<(), Error>)
        ensures
            match prev_group_ids {
                Some(g) => r matches Err(e) && e@ == (ErrorView::DuplicateGroupId {
                    path_or_url: path_or_url@,
                    id: group_id@,
                    origin: g@.origin,
                }),
                None => r is Ok,
            },
    {
        match prev_group_ids {
            Some(group_ids) => Err(Error::DuplicateGroupId { path_or_url, id: group_id, origin: group_ids.origin }),
            None => Ok(()),
        }
    }
}

/// The text that reports an error.
pub open spec fn error_text(e: ErrorView) -> Seq<char> {
    match e {
        ErrorView::CatalogNotFound { path_or_url, error } => "Semantic convention catalog "@ + quoted(path_or_url)
            + " not found\n"@ + quoted(error),
        ErrorView::InvalidCatalog { path_or_url, error, .. } => "Invalid semantic convention catalog "@ + quoted(
            path_or_url,
        ) + "\n"@ + quoted(error),
        ErrorView::DuplicateAttributeId { path_or_url, id } => "Duplicate attribute id `"@ + id
            + "` detected while loading "@ + quoted(path_or_url),
        ErrorView::DuplicateGroupId { path_or_url, id, origin } => "Duplicate group id `"@ + id
            + "` detected while loading "@ + quoted(path_or_url) + " and already defined in "@ + quoted(origin),
        ErrorView::DuplicateMetricName { path_or_url, name } => "Duplicate metric name `"@ + name
            + "` detected while loading "@ + quoted(path_or_url),
        ErrorView::InvalidAttribute { path_or_url, group_id, error } =>
            "Invalid attribute definition detected while resolving "@ + quoted(path_or_url) + ", group_id=`"@
            + group_id + "`.\n"@ + quoted(error),
        ErrorView::AttributeNotFound { reference } => "Attribute reference `"@ + reference + "` not found."@,
        ErrorView::InvalidMetric { path_or_url, group_id, error } =>
            "Invalid metric definition detected while resolving "@ + quoted(path_or_url) + ", group_id=`"@
            + group_id + "`.\n"@ + quoted(error),
    }
}

impl Error {
    /// The text that reports the error.
    pub fn to_text(&self) -> (r: String)
        ensures
            r@ == error_text(self@),
    {
        let mut out = String::new();
        match self {
            Error::CatalogNotFound { path_or_url, error } => {
                out.append("Semantic convention catalog ");
                out.append(quoted_text(path_or_url.as_str()).as_str());
                out.append(" not found\n");
                out.append(quoted_text(error.as_str()).as_str());
            },
            Error::InvalidCatalog { path_or_url, error, .. } => {
                out.append("Invalid semantic convention catalog ");
                out.append(quoted_text(path_or_url.as_str()).as_str());
                out.append("\n");
                out.append(quoted_text(error.as_str()).as_str());
            },
            Error::DuplicateAttributeId { path_or_url, id } => {
                out.append("Duplicate attribute id `");
                out.append(id.as_str());
                out.append("` detected while loading ");
                out.append(quoted_text(path_or_url.as_str()).as_str());
            },
            Error::DuplicateGroupId { path_or_url, id, origin } => {
                out.append("Duplicate group id `");
                out.append(id.as_str());
                out.append("` detected while loading ");
                out.append(quoted_text(path_or_url.as_str()).as_str());
                out.append(" and already defined in ");
                out.append(quoted_text(origin.as_str()).as_str());
            },
            Error::DuplicateMetricName { path_or_url, name } => {
                out.append("Duplicate metric name `");
                out.append(name.as_str());
                out.append("` detected while loading ");
                out.append(quoted_text(path_or_url.as_str()).as_str());
            },
            Error::InvalidAttribute { path_or_url, group_id, error } => {
                out.append("Invalid attribute definition detected while resolving ");
                out.append(quoted_text(path_or_url.as_str()).as_str());
                out.append(", group_id=`");
                out.append(group_id.as_str());
                out.append("`.\n");
                out.append(quoted_text(error.as_str()).as_str());
            },
            Error::AttributeNotFound { reference } => {
                out.append("Attribute reference `");
                out.append(reference.as_str());
                out.append("` not found.");
            },
            Error::InvalidMetric { path_or_url, group_id, error } => {
                out.append("Invalid metric definition detected while resolving ");
                out.append(quoted_text(path_or_url.as_str()).as_str());
                out.append(", group_id=`");
                out.append(group_id.as_str());
                out.append("`.\n");
                out.append(quoted_text(error.as_str()).as_str());
            },
        }
        proof {
            assert(out@ =~= error_text(self@));
        }
        out
    }
}

/// Whether every attribute of a map is a definition whose id is its key.
pub open spec fn definitions_keyed(m: Map<Seq<char>, AttributeView>) -> bool {
    forall|k: Seq<char>| #[trigger] m.contains_key(k) ==> (m[k] matches AttributeView::Id { id, .. } && id == k)
}

proof fn lemma_attrs_fold_definitions(
    st: AttrsState,
    path: Seq<char>,
    gid: Seq<char>,
    prefix: Seq<char>,
    s: Seq<AttributeView>,
)
    requires
        definitions_keyed(st.attributes),
    ensures
        definitions_keyed(attrs_fold(st, path, gid, prefix, s).0.attributes),
    decreases s.len(),
{
    if s.len() > 0 {
        lemma_attrs_fold_definitions(st, path, gid, prefix, s.drop_last());
    }
}

proof fn lemma_groups_fold_definitions(st: CatalogState, path: Seq<char>, gs: Seq<GroupView>)
    requires
        definitions_keyed(st.attributes),
    ensures
        definitions_keyed(groups_fold(st, path, gs).0.attributes),
    decreases gs.len(),
{
    if gs.len() > 0 {
        lemma_groups_fold_definitions(st, path, gs.drop_last());
        let (st1, e1) = groups_fold(st, path, gs.drop_last());
        if e1 is None {
            let g = gs.last();
            if g.group_type != ConvType::Scope {
                lemma_attrs_fold_definitions(
                    AttrsState { attributes: st1.attributes, ids: Set::empty(), pending: st1.pending },
                    path,
                    g.id,
                    g.prefix,
                    g.attributes,
                );
            }
        }
    }
}

/// Resolving keeps every attribute of the catalog a definition stored under
/// its (fully qualified) id; as a new catalog holds no attribute and adding a
/// specification leaves the attributes as they are, every catalog holds
/// definitions only, each under its id.
pub proof fn lemma_resolve_keeps_definitions(st: CatalogState, specs: Seq<(Seq<char>, Seq<GroupView>)>)
    requires
        definitions_keyed(st.attributes),
    ensures
        definitions_keyed(specs_fold(st, specs).0.attributes),
    decreases specs.len(),
{
    if specs.len() > 0 {
        lemma_resolve_keeps_definitions(st, specs.drop_last());
        let (st1, e1) = specs_fold(st, specs.drop_last());
        if e1 is None {
            lemma_groups_fold_definitions(st1, specs.last().0, specs.last().1);
        }
    }
}

} // verus!
