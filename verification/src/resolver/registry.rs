//! Resolution of a semantic convention registry.
use vstd::prelude::*;
use crate::resolved::attribute::{AttributeRef, AttributeView, UnresolvedAttribute};
use crate::resolved::registry::{
    Constraint, Group, GroupView, Registry, TypedGroup, TypedGroupView, UnresolvedGroup,
    UnresolvedGroupView, UnresolvedRegistry, groups_view, unresolved_groups_view, unresolved_view,
};
use crate::resolver::attribute::{
    AttributeCatalog, CatalogState, all_distinct, interned, lemma_position, position, resolution,
    resolve_attribute, resolve_step,
};
use crate::resolver::stability::{resolve_stability, resolved_stability};
use crate::resolver::{Error, ErrorView};
use crate::semconv::attribute::{AttributeView as AttributeSpecView, attr_id, attrs_view, clone_opt_text, clone_texts};
use crate::semconv::catalog::{SemConvCatalog, SemConvSpec, groups_view as spec_groups_view};
use crate::semconv::group::{
    ConstraintView, ConvType, Constraint as ConstraintSpec, Group as GroupSpec, GroupView as GroupSpecView,
};

verus! {

/// The type of a resolved group, with the fields specific to that type.
pub open spec fn typed_group_of(g: GroupSpecView) -> TypedGroupView {
    match g.group_type {
        ConvType::AttributeGroup => TypedGroupView::AttributeGroup,
        ConvType::Span => TypedGroupView::Span { span_kind: g.span_kind, events: g.events },
        ConvType::Event => TypedGroupView::Event { name: g.name },
        ConvType::Metric => TypedGroupView::Metric {
            metric_name: g.metric_name,
            instrument: g.instrument,
            unit: g.unit,
        },
        ConvType::MetricGroup => TypedGroupView::MetricGroup,
        ConvType::Resource => TypedGroupView::Resource,
        ConvType::Scope => TypedGroupView::Scope,
    }
}

/// The resolved group of a semantic convention group, with the given
/// attribute references.
pub open spec fn resolved_group(g: GroupSpecView, refs: Seq<AttributeRef>) -> GroupView {
    GroupView {
        id: g.id,
        typed_group: typed_group_of(g),
        brief: g.brief,
        note: g.note,
        prefix: g.prefix,
        extends: g.extends,
        stability: resolved_stability(g.stability),
        deprecated: g.deprecated,
        constraints: g.constraints,
        attributes: refs,
    }
}

/// The unresolved group of a semantic convention group: no attribute
/// resolved yet, all of them left to resolve.
pub open spec fn unresolved_group(g: GroupSpecView) -> UnresolvedGroupView {
    UnresolvedGroupView { group: resolved_group(g, Seq::empty()), attributes: g.attributes }
}

/// The groups of a sequence of specifications, in order.
pub open spec fn all_groups(specs: Seq<SemConvSpec>) -> Seq<GroupSpecView>
    decreases specs.len(),
{
    if specs.len() == 0 {
        Seq::empty()
    } else {
        all_groups(specs.drop_last()) + spec_groups_view(specs.last().groups@)
    }
}

/// Resolves the constraints of a group.
pub fn resolve_constraints(constraints: &Vec<ConstraintSpec>) -> (r: Vec<Constraint>)
    ensures
        r@.map_values(|c: Constraint| c@) == constraints@.map_values(|c: ConstraintSpec| c@),
{
    let mut out: Vec<Constraint> = Vec::new();
    let mut i: usize = 0;
    while i < constraints.len()
        invariant
            i <= constraints@.len(),
            out@.len() == i,
            forall|j: int| 0 <= j < i ==> (#[trigger] out@[j])@ == constraints@[j]@,
        decreases constraints@.len() - i,
    {
        let c = &constraints[i];
        out.push(Constraint { any_of: clone_texts(&c.any_of), includes: clone_opt_text(&c.includes) });
        i = i + 1;
    }
    proof {
        assert(out@.map_values(|c: Constraint| c@) =~= constraints@.map_values(|c: ConstraintSpec| c@));
    }
    out
}

/// The type of the resolved group of a semantic convention group.
fn typed_group_from_spec(group: &GroupSpec) -> (r: TypedGroup)
    ensures
        r@ == typed_group_of(group@),
{
    match group.group_type {
        ConvType::AttributeGroup => TypedGroup::AttributeGroup,
        ConvType::Span => TypedGroup::Span { span_kind: group.span_kind, events: clone_texts(&group.events) },
        ConvType::Event => TypedGroup::Event { name: clone_opt_text(&group.name) },
        ConvType::Metric => TypedGroup::Metric {
            metric_name: clone_opt_text(&group.metric_name),
            instrument: group.instrument,
            unit: clone_opt_text(&group.unit),
        },
        ConvType::MetricGroup => TypedGroup::MetricGroup,
        ConvType::Resource => TypedGroup::Resource,
        ConvType::Scope => TypedGroup::Scope,
    }
}

/// The resolved group of a semantic convention group, with the given
/// attribute references.
fn group_with_refs(group: &GroupSpec, attributes: Vec<AttributeRef>) -> (r: Group)
    ensures
        r@ == resolved_group(group@, attributes@),
{
    Group {
        id: group.id.clone(),
        typed_group: typed_group_from_spec(group),
        brief: group.brief.clone(),
        note: group.note.clone(),
        prefix: group.prefix.clone(),
        extends: clone_opt_text(&group.extends),
        stability: resolve_stability(&group.stability),
        deprecated: clone_opt_text(&group.deprecated),
        constraints: resolve_constraints(&group.constraints),
        attributes,
    }
}

/// Creates a group from a semantic convention group specification.
/// Note: this function does not resolve references.
fn group_from_spec(group: &GroupSpec) -> (r: UnresolvedGroup)
    ensures
        r@ == unresolved_group(group@),
{
    let mut attrs: Vec<UnresolvedAttribute> = Vec::new();
    let mut i: usize = 0;
    while i < group.attributes.len()
        invariant
            i <= group.attributes@.len(),
            attrs@.len() == i,
            forall|j: int| 0 <= j < i ==> (#[trigger] attrs@[j]).spec@ == group.attributes@[j]@,
        decreases group.attributes@.len() - i,
    {
        attrs.push(UnresolvedAttribute { spec: group.attributes[i].clone() });
        i = i + 1;
    }
    proof {
        assert(unresolved_view(attrs@) =~= attrs_view(group.attributes@));
    }
    UnresolvedGroup { group: group_with_refs(group, Vec::new()), attributes: attrs }
}

/// Creates a registry from a set of semantic convention specifications.
/// Note: this function does not resolve references.
pub fn unresolved_registry_from_specs(url: &str, specs: &Vec<SemConvSpec>) -> (r: UnresolvedRegistry)
    ensures
        r.registry.registry_url@ == url@,
        r.registry.groups@.len() == 0,
        unresolved_groups_view(r.groups@) == all_groups(specs@).map_values(|g: GroupSpecView| unresolved_group(g)),
{
    let mut groups: Vec<UnresolvedGroup> = Vec::new();
    let mut i: usize = 0;
    proof {
        assert(specs@.subrange(0, 0) =~= Seq::<SemConvSpec>::empty());
        assert(unresolved_groups_view(groups@) =~= all_groups(specs@.subrange(0, 0)).map_values(
            |g: GroupSpecView| unresolved_group(g),
        ));
    }
    while i < specs.len()
        invariant
            i <= specs@.len(),
            unresolved_groups_view(groups@) == all_groups(specs@.subrange(0, i as int)).map_values(
                |g: GroupSpecView| unresolved_group(g),
            ),
        decreases specs@.len() - i,
    {
        let spec_groups = &specs[i].groups;
        let ghost before = unresolved_groups_view(groups@);
        let mut j: usize = 0;
        while j < spec_groups.len()
            invariant
                j <= spec_groups@.len(),
                unresolved_groups_view(groups@) == before + spec_groups_view(spec_groups@.subrange(0, j as int)).map_values(
                    |g: GroupSpecView| unresolved_group(g),
                ),
            decreases spec_groups@.len() - j,
        {
            let ghost prev = unresolved_groups_view(groups@);
            groups.push(group_from_spec(&spec_groups[j]));
            proof {
                assert(spec_groups_view(spec_groups@.subrange(0, j + 1)) =~= spec_groups_view(
                    spec_groups@.subrange(0, j as int),
                ).push(spec_groups@[j as int]@));
                assert(unresolved_groups_view(groups@) =~= prev.push(unresolved_group(spec_groups@[j as int]@)));
            }
            j = j + 1;
        }
        proof {
            assert(spec_groups@.subrange(0, j as int) == spec_groups@);
            assert(specs@.subrange(0, i + 1).drop_last() =~= specs@.subrange(0, i as int));
            assert(specs@.subrange(0, i + 1).last() == specs@[i as int]);
            assert(all_groups(specs@.subrange(0, i + 1)) == all_groups(specs@.subrange(0, i as int))
                + spec_groups_view(specs@[i as int].groups@));
            assert(unresolved_groups_view(groups@) =~= all_groups(specs@.subrange(0, i + 1)).map_values(
                |g: GroupSpecView| unresolved_group(g),
            ));
        }
        i = i + 1;
    }
    proof {
        assert(specs@.subrange(0, i as int) == specs@);
    }
    UnresolvedRegistry { registry: Registry { registry_url: url.to_owned(), groups: Vec::new() }, groups }
}

/// Resolving the attributes of a group in order, each into the catalog's
/// attributes, stopping at the first error: the catalog's attributes after
/// it, and the references obtained or the error.
pub open spec fn refs_fold(
    registry: Map<Seq<char>, AttributeSpecView>,
    c: Seq<AttributeView>,
    attrs: Seq<AttributeSpecView>,
) -> (Seq<AttributeView>, Result<Seq<AttributeRef>, ErrorView>)
    decreases attrs.len(),
{
    if attrs.len() == 0 {
        (c, Ok(Seq::empty()))
    } else {
        let (c1, r1) = refs_fold(registry, c, attrs.drop_last());
        match r1 {
            Err(e) => (c1, Err(e)),
            Ok(refs) => match resolution(registry, attrs.last()) {
                Err(e) => (c1, Err(e)),
                Ok(v) => {
                    let s = interned(c1, v);
                    (s, Ok(refs.push(AttributeRef(position(s, v) as u32))))
                },
            },
        }
    }
}

/// Resolving groups in order, stopping at the first error: the catalog's
/// attributes after it, and the resolved groups or the error.
pub open spec fn groups_fold(
    registry: Map<Seq<char>, AttributeSpecView>,
    c: Seq<AttributeView>,
    gs: Seq<GroupSpecView>,
) -> (Seq<AttributeView>, Result<Seq<GroupView>, ErrorView>)
    decreases gs.len(),
{
    if gs.len() == 0 {
        (c, Ok(Seq::empty()))
    } else {
        let (c1, r1) = groups_fold(registry, c, gs.drop_last());
        match r1 {
            Err(e) => (c1, Err(e)),
            Ok(done) => {
                let (c2, r2) = refs_fold(registry, c1, gs.last().attributes);
                match r2 {
                    Err(e) => (c2, Err(e)),
                    Ok(refs) => (c2, Ok(done.push(resolved_group(gs.last(), refs)))),
                }
            },
        }
    }
}

/// The number of attributes of a sequence of groups.
pub open spec fn attrs_count(gs: Seq<GroupSpecView>) -> nat
    decreases gs.len(),
{
    if gs.len() == 0 {
        0
    } else {
        attrs_count(gs.drop_last()) + gs.last().attributes.len()
    }
}

proof fn lemma_attrs_count_prefix(gs: Seq<GroupSpecView>, k: int)
    requires
        0 <= k <= gs.len(),
    ensures
        attrs_count(gs.subrange(0, k)) <= attrs_count(gs),
    decreases gs.len() - k,
{
    if k < gs.len() {
        assert(gs.subrange(0, k + 1).drop_last() == gs.subrange(0, k));
        lemma_attrs_count_prefix(gs, k + 1);
    } else {
        assert(gs.subrange(0, k) == gs);
    }
}

/// Resolve a semantic convention group: each of its attributes is resolved
/// against the registry and interned in the catalog.
fn semconv_to_resolved_group(
    registry: &SemConvCatalog,
    attr_catalog: &mut AttributeCatalog,
    group: &GroupSpec,
) -> (r: Result<Group, Error>)
    requires
        old(attr_catalog).attributes().len() + group.attributes@.len() <= u32::MAX,
    ensures
        ({
            let (c, res) = refs_fold(registry.attributes(), old(attr_catalog).attributes(), group@.attributes);
            &&& final(attr_catalog).attributes() == c
            &&& final(attr_catalog).roots() == old(attr_catalog).roots()
            &&& final(attr_catalog).attributes().len() <= old(attr_catalog).attributes().len()
                + group.attributes@.len()
            &&& match res {
                Ok(refs) => r matches Ok(g) && g@ == resolved_group(group@, refs),
                Err(e) => r matches Err(x) && x@ == e,
            }
        }),
{
    let ghost reg = registry.attributes();
    let ghost c0 = attr_catalog.attributes();
    let ghost attrs = group@.attributes;
    let mut attr_refs: Vec<AttributeRef> = Vec::new();
    let mut i: usize = 0;
    proof {
        assert(attrs.subrange(0, 0) =~= Seq::<AttributeSpecView>::empty());
    }
    while i < group.attributes.len()
        invariant
            i <= group.attributes@.len(),
            attrs == group@.attributes,
            reg == registry.attributes(),
            c0.len() + attrs.len() <= u32::MAX,
            attr_catalog.attributes().len() <= c0.len() + i,
            attr_catalog.roots() == old(attr_catalog).roots(),
            c0 == old(attr_catalog).attributes(),
            refs_fold(reg, c0, attrs.subrange(0, i as int)) == (attr_catalog.attributes(), Ok::<
                Seq<AttributeRef>,
                ErrorView,
            >(attr_refs@)),
        decreases group.attributes@.len() - i,
    {
        proof {
            assert(attrs.subrange(0, i + 1).drop_last() =~= attrs.subrange(0, i as int));
            assert(attrs.subrange(0, i + 1).last() == group.attributes@[i as int]@);
        }
        match resolve_attribute(registry, &group.attributes[i]) {
            Err(e) => {
                proof {
                    lemma_refs_fold_error_sticks(reg, c0, attrs, i + 1);
                }
                return Err(e);
            },
            Ok(attr) => {
                let ghost v = attr@;
                let ghost before = attr_catalog.attributes();
                let x = attr_catalog.attribute_ref(attr);
                proof {
                    lemma_position(attr_catalog.attributes(), v, x.0 as int);
                }
                attr_refs.push(x);
            },
        }
        i = i + 1;
    }
    proof {
        assert(attrs.subrange(0, i as int) == attrs);
    }
    Ok(group_with_refs(group, attr_refs))
}

proof fn lemma_refs_fold_error_sticks(
    registry: Map<Seq<char>, AttributeSpecView>,
    c: Seq<AttributeView>,
    attrs: Seq<AttributeSpecView>,
    k: int,
)
    requires
        0 <= k <= attrs.len(),
        refs_fold(registry, c, attrs.subrange(0, k)).1 is Err,
    ensures
        refs_fold(registry, c, attrs) == refs_fold(registry, c, attrs.subrange(0, k)),
    decreases attrs.len() - k,
{
    if k < attrs.len() {
        assert(attrs.subrange(0, k + 1).drop_last() == attrs.subrange(0, k));
        lemma_refs_fold_error_sticks(registry, c, attrs, k + 1);
    } else {
        assert(attrs.subrange(0, k) == attrs);
    }
}

proof fn lemma_groups_fold_error_sticks(
    registry: Map<Seq<char>, AttributeSpecView>,
    c: Seq<AttributeView>,
    gs: Seq<GroupSpecView>,
    k: int,
)
    requires
        0 <= k <= gs.len(),
        groups_fold(registry, c, gs.subrange(0, k)).1 is Err,
    ensures
        groups_fold(registry, c, gs) == groups_fold(registry, c, gs.subrange(0, k)),
    decreases gs.len() - k,
{
    if k < gs.len() {
        assert(gs.subrange(0, k + 1).drop_last() == gs.subrange(0, k));
        lemma_groups_fold_error_sticks(registry, c, gs, k + 1);
    } else {
        assert(gs.subrange(0, k) == gs);
    }
}

/// The groups of a sequence of specifications, in order.
fn flatten_groups(specs: &Vec<SemConvSpec>) -> (r: Vec<&GroupSpec>)
    ensures
        r@.map_values(|g: &GroupSpec| g@) == all_groups(specs@),
{
    let mut out: Vec<&GroupSpec> = Vec::new();
    let mut i: usize = 0;
    proof {
        assert(specs@.subrange(0, 0) =~= Seq::<SemConvSpec>::empty());
        assert(out@.map_values(|g: &GroupSpec| g@) =~= all_groups(specs@.subrange(0, 0)));
    }
    while i < specs.len()
        invariant
            i <= specs@.len(),
            out@.map_values(|g: &GroupSpec| g@) == all_groups(specs@.subrange(0, i as int)),
        decreases specs@.len() - i,
    {
        let spec_groups = &specs[i].groups;
        let ghost before = out@.map_values(|g: &GroupSpec| g@);
        let mut j: usize = 0;
        while j < spec_groups.len()
            invariant
                j <= spec_groups@.len(),
                out@.map_values(|g: &GroupSpec| g@) == before + spec_groups_view(spec_groups@.subrange(0, j as int)),
            decreases spec_groups@.len() - j,
        {
            let ghost prev = out@.map_values(|g: &GroupSpec| g@);
            out.push(&spec_groups[j]);
            proof {
                assert(spec_groups_view(spec_groups@.subrange(0, j + 1)) =~= spec_groups_view(
                    spec_groups@.subrange(0, j as int),
                ).push(spec_groups@[j as int]@));
                assert(out@.map_values(|g: &GroupSpec| g@) =~= prev.push(spec_groups@[j as int]@));
            }
            j = j + 1;
        }
        proof {
            assert(spec_groups@.subrange(0, j as int) == spec_groups@);
            assert(specs@.subrange(0, i + 1).drop_last() =~= specs@.subrange(0, i as int));
            assert(specs@.subrange(0, i + 1).last() == specs@[i as int]);
        }
        i = i + 1;
    }
    proof {
        assert(specs@.subrange(0, i as int) == specs@);
    }
    out
}

/// Resolve a semantic convention registry: every group of the
/// specifications, in order, against the attributes of `registry`.
pub fn resolve_semconv_registry(
    attr_catalog: &mut AttributeCatalog,
    url: &str,
    specs: &Vec<SemConvSpec>,
    registry: &SemConvCatalog,
) -> (r: Result<Registry, Error>)
    requires
        old(attr_catalog).attributes().len() + attrs_count(all_groups(specs@)) <= u32::MAX,
    ensures
        ({
            let (c, res) = groups_fold(registry.attributes(), old(attr_catalog).attributes(), all_groups(specs@));
            &&& final(attr_catalog).attributes() == c
            &&& final(attr_catalog).roots() == old(attr_catalog).roots()
            &&& match res {
                Ok(gs) => r matches Ok(reg) && reg.registry_url@ == url@ && groups_view(reg.groups@) == gs,
                Err(e) => r matches Err(x) && x@ == e,
            }
        }),
{
    let all = flatten_groups(specs);
    let ghost gs = all_groups(specs@);
    let ghost reg = registry.attributes();
    let ghost c0 = attr_catalog.attributes();
    let mut groups: Vec<Group> = Vec::new();
    let mut k: usize = 0;
    proof {
        assert(gs.subrange(0, 0) =~= Seq::<GroupSpecView>::empty());
        assert(groups_view(groups@) =~= Seq::<GroupView>::empty());
    }
    while k < all.len()
        invariant
            k <= all@.len(),
            all@.map_values(|g: &GroupSpec| g@) == gs,
            gs == all_groups(specs@),
            reg == registry.attributes(),
            c0 == old(attr_catalog).attributes(),
            c0.len() + attrs_count(gs) <= u32::MAX,
            attr_catalog.attributes().len() <= c0.len() + attrs_count(gs.subrange(0, k as int)),
            attr_catalog.roots() == old(attr_catalog).roots(),
            groups_fold(reg, c0, gs.subrange(0, k as int)) == (attr_catalog.attributes(), Ok::<
                Seq<GroupView>,
                ErrorView,
            >(groups_view(groups@))),
        decreases all@.len() - k,
    {
        proof {
            assert(gs.subrange(0, k + 1).drop_last() =~= gs.subrange(0, k as int));
            assert(gs.subrange(0, k + 1).last() == all@[k as int]@);
            lemma_attrs_count_prefix(gs, k + 1);
        }
        let ghost before = groups_view(groups@);
        match semconv_to_resolved_group(registry, attr_catalog, all[k]) {
            Err(e) => {
                proof {
                    lemma_groups_fold_error_sticks(reg, c0, gs, k + 1);
                }
                return Err(e);
            },
            Ok(g) => {
                groups.push(g);
                proof {
                    assert(groups_view(groups@) =~= before.push(groups@.last()@));
                }
            },
        }
        k = k + 1;
    }
    proof {
        assert(gs.subrange(0, k as int) == gs);
    }
    Ok(Registry { registry_url: url.to_owned(), groups })
}

/// A group with more attribute references.
pub open spec fn with_more_refs(g: GroupView, refs: Seq<AttributeRef>) -> GroupView {
    GroupView {
        id: g.id,
        typed_group: g.typed_group,
        brief: g.brief,
        note: g.note,
        prefix: g.prefix,
        extends: g.extends,
        stability: g.stability,
        deprecated: g.deprecated,
        constraints: g.constraints,
        attributes: g.attributes + refs,
    }
}

/// One pass over the attributes left in a group, in order: each is
/// resolved against the catalog if it can be. The catalog after the pass,
/// the references obtained, and the attributes still left.
pub open spec fn attrs_pass(c: CatalogState, prefix: Seq<char>, attrs: Seq<AttributeSpecView>) -> (
    CatalogState,
    Seq<AttributeRef>,
    Seq<AttributeSpecView>,
)
    decreases attrs.len(),
{
    if attrs.len() == 0 {
        (c, Seq::empty(), Seq::empty())
    } else {
        let (c1, refs, left) = attrs_pass(c, prefix, attrs.drop_last());
        let (c2, o) = resolve_step(c1, prefix, attrs.last());
        match o {
            Some(x) => (c2, refs.push(x), left),
            None => (c2, refs, left.push(attrs.last())),
        }
    }
}

/// One pass over the groups, in order: the catalog after it, the groups
/// with the references obtained added and the attributes still left, and
/// the numbers of attributes resolved and left.
pub open spec fn groups_pass(c: CatalogState, gs: Seq<UnresolvedGroupView>) -> (
    CatalogState,
    Seq<UnresolvedGroupView>,
    nat,
    nat,
)
    decreases gs.len(),
{
    if gs.len() == 0 {
        (c, Seq::empty(), 0, 0)
    } else {
        let (c1, done, resolved, left_count) = groups_pass(c, gs.drop_last());
        let g = gs.last();
        let (c2, refs, left) = attrs_pass(c1, g.group.prefix, g.attributes);
        (
            c2,
            done.push(UnresolvedGroupView { group: with_more_refs(g.group, refs), attributes: left }),
            resolved + refs.len(),
            left_count + left.len(),
        )
    }
}

/// The number of attributes left to resolve in a sequence of groups.
pub open spec fn unresolved_count(gs: Seq<UnresolvedGroupView>) -> nat
    decreases gs.len(),
{
    if gs.len() == 0 {
        0
    } else {
        unresolved_count(gs.drop_last()) + gs.last().attributes.len()
    }
}

/// The ids of the attributes left to resolve, group by group.
pub open spec fn remaining_ids(gs: Seq<UnresolvedGroupView>) -> Seq<Seq<char>>
    decreases gs.len(),
{
    if gs.len() == 0 {
        Seq::empty()
    } else {
        remaining_ids(gs.drop_last()) + gs.last().attributes.map_values(|a: AttributeSpecView| attr_id(a))
    }
}

/// A pass over a group's attributes leaves each of them either resolved or
/// still left.
pub proof fn lemma_attrs_pass_counts(c: CatalogState, prefix: Seq<char>, attrs: Seq<AttributeSpecView>)
    ensures
        attrs_pass(c, prefix, attrs).1.len() + attrs_pass(c, prefix, attrs).2.len() == attrs.len(),
    decreases attrs.len(),
{
    if attrs.len() > 0 {
        lemma_attrs_pass_counts(c, prefix, attrs.drop_last());
    }
}

/// A pass over the groups leaves each attribute either resolved or still
/// left, and keeps the groups.
pub proof fn lemma_groups_pass_counts(c: CatalogState, gs: Seq<UnresolvedGroupView>)
    ensures
        groups_pass(c, gs).2 + groups_pass(c, gs).3 == unresolved_count(gs),
        unresolved_count(groups_pass(c, gs).1) == groups_pass(c, gs).3,
        groups_pass(c, gs).1.len() == gs.len(),
    decreases gs.len(),
{
    if gs.len() > 0 {
        let (c1, done, resolved, left_count) = groups_pass(c, gs.drop_last());
        lemma_groups_pass_counts(c, gs.drop_last());
        lemma_attrs_pass_counts(c1, gs.last().group.prefix, gs.last().attributes);
        let r = groups_pass(c, gs);
        assert(r.1.drop_last() == done);
    }
}

proof fn lemma_unresolved_count_prefix(gs: Seq<UnresolvedGroupView>, k: int)
    requires
        0 <= k <= gs.len(),
    ensures
        unresolved_count(gs.subrange(0, k)) <= unresolved_count(gs),
    decreases gs.len() - k,
{
    if k < gs.len() {
        assert(gs.subrange(0, k + 1).drop_last() == gs.subrange(0, k));
        lemma_unresolved_count_prefix(gs, k + 1);
    } else {
        assert(gs.subrange(0, k) == gs);
    }
}

/// Resolving a registry: passes over the groups are made until no attribute
/// is left to resolve, or a pass resolves none, which is an error that lists
/// the ids of the attributes left.
pub open spec fn registry_fixpoint(c: CatalogState, gs: Seq<UnresolvedGroupView>) -> (
    CatalogState,
    Result<Seq<UnresolvedGroupView>, Seq<Seq<char>>>,
)
    decreases unresolved_count(gs),
{
    let (c1, gs1, resolved, left) = groups_pass(c, gs);
    if left == 0 {
        (c1, Ok(gs1))
    } else if resolved == 0 {
        (c1, Err(remaining_ids(gs1)))
    } else {
        proof {
            lemma_groups_pass_counts(c, gs);
        }
        registry_fixpoint(c1, gs1)
    }
}

/// The ids of the attributes left to resolve in the groups.
fn left_ids(groups: &Vec<UnresolvedGroup>) -> (r: Vec<String>)
    ensures
        r@.map_values(|s: String| s@) == remaining_ids(unresolved_groups_view(groups@)),
{
    let ghost gs = unresolved_groups_view(groups@);
    let mut ids: Vec<String> = Vec::new();
    let mut k: usize = 0;
    proof {
        assert(gs.subrange(0, 0) =~= Seq::<UnresolvedGroupView>::empty());
        assert(ids@.map_values(|s: String| s@) =~= remaining_ids(gs.subrange(0, 0)));
    }
    while k < groups.len()
        invariant
            k <= groups@.len(),
            gs == unresolved_groups_view(groups@),
            ids@.map_values(|s: String| s@) == remaining_ids(gs.subrange(0, k as int)),
        decreases groups@.len() - k,
    {
        let attrs = &groups[k].attributes;
        let ghost before = ids@.map_values(|s: String| s@);
        let ghost av = unresolved_view(attrs@);
        let mut j: usize = 0;
        while j < attrs.len()
            invariant
                j <= attrs@.len(),
                av == unresolved_view(attrs@),
                ids@.map_values(|s: String| s@) == before + av.subrange(0, j as int).map_values(
                    |a: AttributeSpecView| attr_id(a),
                ),
            decreases attrs@.len() - j,
        {
            let ghost prev = ids@.map_values(|s: String| s@);
            ids.push(attrs[j].spec.id());
            proof {
                assert(av.subrange(0, j + 1).map_values(|a: AttributeSpecView| attr_id(a)) =~= av.subrange(
                    0,
                    j as int,
                ).map_values(|a: AttributeSpecView| attr_id(a)).push(attr_id(av[j as int])));
                assert(ids@.map_values(|s: String| s@) =~= prev.push(attr_id(av[j as int])));
            }
            j = j + 1;
        }
        proof {
            assert(av.subrange(0, j as int) == av);
            assert(gs.subrange(0, k + 1).drop_last() =~= gs.subrange(0, k as int));
            assert(gs.subrange(0, k + 1).last() == gs[k as int]);
        }
        k = k + 1;
    }
    proof {
        assert(gs.subrange(0, k as int) == gs);
    }
    ids
}

/// Resolves the registry by resolving all groups and attributes.
pub fn resolve_registry(ureg: UnresolvedRegistry, attr_catalog: &mut AttributeCatalog) -> (r: Result<
    Registry,
    Error,
>)
    requires
        old(attr_catalog).attributes().len() + unresolved_count(unresolved_groups_view(ureg.groups@))
            <= u32::MAX,
    ensures
        ({
            let (c, res) = registry_fixpoint(old(attr_catalog).state(), unresolved_groups_view(ureg.groups@));
            &&& final(attr_catalog).state() == c
            &&& match res {
                Ok(gs) => r matches Ok(reg) && reg.registry_url@ == ureg.registry.registry_url@ && groups_view(
                    reg.groups@,
                ) == gs.map_values(|g: UnresolvedGroupView| g.group),
                Err(ids) => r matches Err(e) && e@ == (ErrorView::FailToResolveAttributes {
                    ids,
                    error: Seq::empty(),
                }),
            }
        }),
{
    let UnresolvedRegistry { registry, groups } = ureg;
    let mut groups = groups;
    let ghost target = registry_fixpoint(attr_catalog.state(), unresolved_groups_view(groups@));
    loop
        invariant_except_break
            registry_fixpoint(attr_catalog.state(), unresolved_groups_view(groups@)) == target,
            attr_catalog.attributes().len() + unresolved_count(unresolved_groups_view(groups@)) <= u32::MAX,
        invariant
            target == registry_fixpoint(old(attr_catalog).state(), unresolved_groups_view(ureg.groups@)),
            registry.registry_url@ == ureg.registry.registry_url@,
        ensures
            target == (attr_catalog.state(), Ok::<Seq<UnresolvedGroupView>, Seq<Seq<char>>>(
                unresolved_groups_view(groups@),
            )),
        decreases unresolved_count(unresolved_groups_view(groups@)),
    {
        let ghost c = attr_catalog.state();
        let ghost g0 = unresolved_groups_view(groups@);
        let mut unresolved_attr_count: usize = 0;
        let mut resolved_attr_count: usize = 0;
        let mut next: Vec<UnresolvedGroup> = Vec::new();
        let n = groups.len();
        let mut pending = groups;
        let ghost orig = pending@;
        let mut k: usize = 0;
        proof {
            assert(g0.subrange(0, 0) =~= Seq::<UnresolvedGroupView>::empty());
            assert(unresolved_groups_view(next@) =~= Seq::<UnresolvedGroupView>::empty());
            assert(pending@ =~= orig.subrange(0, n as int));
        }
        // Iterate over all groups and resolve the attributes.
        while k < n
            invariant
                k <= n,
                n == orig.len(),
                g0 == unresolved_groups_view(orig),
                pending@ == orig.subrange(k as int, n as int),
                c.attributes.len() + unresolved_count(g0) <= u32::MAX,
                attr_catalog.attributes().len() <= c.attributes.len() + resolved_attr_count,
                groups_pass(c, g0.subrange(0, k as int)) == (
                    attr_catalog.state(),
                    unresolved_groups_view(next@),
                    resolved_attr_count as nat,
                    unresolved_attr_count as nat,
                ),
            decreases n - k,
        {
            let ghost gk = g0[k as int];
            let ghost c1 = attr_catalog.state();
            let ghost base_resolved = resolved_attr_count;
            let ghost base_unresolved = unresolved_attr_count;
            proof {
                assert(orig[k as int] == pending@[0]);
                assert(gk == pending@[0]@);
                lemma_groups_pass_counts(c, g0.subrange(0, k as int));
                assert(g0.subrange(0, k + 1).drop_last() =~= g0.subrange(0, k as int));
                assert(g0.subrange(0, k + 1).last() == gk);
                lemma_unresolved_count_prefix(g0, k + 1);
            }
            let unresolved_group = pending.remove(0);
            let UnresolvedGroup { group: mut group, attributes } = unresolved_group;
            let mut attrs = attributes;
            let ghost av = unresolved_view(attrs@);
            let ghost attrs_orig = attrs@;
            let m = attrs.len();
            let mut left: Vec<UnresolvedAttribute> = Vec::new();
            let mut resolved_attr: Vec<AttributeRef> = Vec::new();
            let mut j: usize = 0;
            proof {
                assert(av.subrange(0, 0) =~= Seq::<AttributeSpecView>::empty());
                assert(unresolved_view(left@) =~= Seq::<AttributeSpecView>::empty());
                assert(attrs@ =~= attrs_orig.subrange(0, m as int));
            }
            while j < m
                invariant
                    j <= m,
                    m == attrs_orig.len(),
                    av == unresolved_view(attrs_orig),
                    av == gk.attributes,
                    group@ == gk.group,
                    attrs@ == attrs_orig.subrange(j as int, m as int),
                    c.attributes.len() + unresolved_count(g0) <= u32::MAX,
                    unresolved_count(g0.subrange(0, k as int)) + m <= unresolved_count(g0),
                    base_resolved + base_unresolved == unresolved_count(g0.subrange(0, k as int)),
                    resolved_attr_count + unresolved_attr_count == base_resolved + base_unresolved + j,
                    resolved_attr_count == base_resolved + resolved_attr@.len(),
                    attr_catalog.attributes().len() <= c.attributes.len() + resolved_attr_count,
                    attrs_pass(c1, gk.group.prefix, av.subrange(0, j as int)) == (
                        attr_catalog.state(),
                        resolved_attr@,
                        unresolved_view(left@),
                    ),
                decreases m - j,
            {
                let attr = attrs.remove(0);
                proof {
                    assert(attr == attrs_orig[j as int]);
                    assert(av.subrange(0, j + 1).drop_last() =~= av.subrange(0, j as int));
                    assert(av.subrange(0, j + 1).last() == attr.spec@);
                }
                let ghost before = attr_catalog.state();
                match attr_catalog.resolve(group.prefix.as_str(), &attr.spec) {
                    Some(attr_ref) => {
                        proof {
                            lemma_position(attr_catalog.attributes(), attr_catalog.attributes()[attr_ref.0 as int], attr_ref.0 as int);
                        }
                        resolved_attr.push(attr_ref);
                        resolved_attr_count = resolved_attr_count + 1;
                    },
                    None => {
                        let ghost lv = unresolved_view(left@);
                        left.push(attr);
                        proof {
                            assert(unresolved_view(left@) =~= lv.push(attrs_orig[j as int].spec@));
                        }
                        unresolved_attr_count = unresolved_attr_count + 1;
                    },
                }
                j = j + 1;
                proof {
                    assert(attrs@ =~= attrs_orig.subrange(j as int, m as int));
                }
            }
            proof {
                assert(av.subrange(0, j as int) == av);
                lemma_attrs_pass_counts(c1, gk.group.prefix, av);
            }
            let ghost refs = resolved_attr@;
            group.attributes.append(&mut resolved_attr);
            let ghost nv = unresolved_groups_view(next@);
            next.push(UnresolvedGroup { group, attributes: left });
            proof {
                assert(unresolved_groups_view(next@) =~= nv.push(
                    UnresolvedGroupView { group: with_more_refs(gk.group, refs), attributes: unresolved_view(left@) },
                ));
            }
            k = k + 1;
            proof {
                assert(pending@ =~= orig.subrange(k as int, n as int));
            }
        }
        proof {
            assert(g0.subrange(0, n as int) == g0);
            lemma_groups_pass_counts(c, g0);
        }
        groups = next;
        proof {
            assert(registry_fixpoint(c, g0) == target);
        }
        if unresolved_attr_count == 0 {
            break;
        }
        // If attributes are left but the last pass resolved none of them, the
        // resolution cannot make progress: the specifications have an issue.
        if resolved_attr_count == 0 {
            let ids = left_ids(&groups);
            let r = Error::FailToResolveAttributes { ids, error: String::new() };
            proof {
                let gp = groups_pass(c, g0);
                assert(gp.3 != 0 && gp.2 == 0);
                assert(registry_fixpoint(c, g0) == (gp.0, Err::<Seq<UnresolvedGroupView>, Seq<Seq<char>>>(
                    remaining_ids(gp.1),
                )));
                assert(target == (attr_catalog.state(), Err::<Seq<UnresolvedGroupView>, Seq<Seq<char>>>(
                    remaining_ids(unresolved_groups_view(groups@)),
                )));
                assert(r@ == (ErrorView::FailToResolveAttributes {
                    ids: remaining_ids(unresolved_groups_view(groups@)),
                    error: Seq::empty(),
                }));
            }
            return Err(r);
        }
    }
    let ghost gs = unresolved_groups_view(groups@);
    let mut out: Vec<Group> = Vec::new();
    let ghost orig = groups@;
    let n = groups.len();
    let mut k: usize = 0;
    proof {
        assert(groups@ =~= orig.subrange(0, n as int));
    }
    while k < n
        invariant
            k <= n,
            n == orig.len(),
            gs == unresolved_groups_view(orig),
            groups@ == orig.subrange(k as int, n as int),
            groups_view(out@) == gs.subrange(0, k as int).map_values(|g: UnresolvedGroupView| g.group),
        decreases n - k,
    {
        let g = groups.remove(0);
        let ghost ov = groups_view(out@);
        proof {
            assert(g == orig[k as int]);
        }
        out.push(g.group);
        proof {
            assert(gs[k as int] == orig[k as int]@);
            assert(groups_view(out@) =~= ov.push(gs[k as int].group));
            assert(gs.subrange(0, k + 1).map_values(|g: UnresolvedGroupView| g.group) =~= gs.subrange(
                0,
                k as int,
            ).map_values(|g: UnresolvedGroupView| g.group).push(gs[k as int].group));
        }
        k = k + 1;
        proof {
            assert(groups@ =~= orig.subrange(k as int, n as int));
        }
    }
    proof {
        assert(gs.subrange(0, n as int) == gs);
    }
    Ok(Registry { registry_url: registry.registry_url, groups: out })
}

proof fn lemma_unresolved_count_zero(gs: Seq<UnresolvedGroupView>)
    requires
        unresolved_count(gs) == 0,
    ensures
        forall|i: int| 0 <= i < gs.len() ==> (#[trigger] gs[i]).attributes.len() == 0,
    decreases gs.len(),
{
    if gs.len() > 0 {
        lemma_unresolved_count_zero(gs.drop_last());
        assert forall|i: int| 0 <= i < gs.len() implies (#[trigger] gs[i]).attributes.len() == 0 by {
            if i < gs.len() - 1 {
                assert(gs.drop_last()[i] == gs[i]);
            }
        }
    }
}

/// A registry that resolves has no attribute left to resolve in any group,
/// and keeps its groups; one that fails has some attribute left.
pub proof fn lemma_resolution_complete(c: CatalogState, gs: Seq<UnresolvedGroupView>)
    ensures
        registry_fixpoint(c, gs).1 matches Ok(r) ==> r.len() == gs.len() && forall|i: int|
            0 <= i < r.len() ==> (#[trigger] r[i]).attributes.len() == 0,
        registry_fixpoint(c, gs).1 matches Err(ids) ==> ids.len() > 0,
    decreases unresolved_count(gs),
{
    let (c1, gs1, resolved, left) = groups_pass(c, gs);
    lemma_groups_pass_counts(c, gs);
    if left == 0 {
        lemma_unresolved_count_zero(gs1);
    } else if resolved == 0 {
        lemma_remaining_ids_len(gs1);
    } else {
        lemma_resolution_complete(c1, gs1);
    }
}

/// A pass over a group's attributes that resolves none leaves the catalog
/// as it is, and every attribute is a reference to a name that is no root.
proof fn lemma_attrs_pass_none(c: CatalogState, prefix: Seq<char>, attrs: Seq<AttributeSpecView>)
    requires
        attrs_pass(c, prefix, attrs).1.len() == 0,
    ensures
        attrs_pass(c, prefix, attrs).0 == c,
        attrs_pass(c, prefix, attrs).2 == attrs,
        forall|j: int|
            0 <= j < attrs.len() ==> (#[trigger] attrs[j]) is Ref && !c.roots.contains_key(attr_id(attrs[j])),
    decreases attrs.len(),
{
    if attrs.len() > 0 {
        let pre = attrs.drop_last();
        let (c1, refs, left) = attrs_pass(c, prefix, pre);
        assert(refs.len() == 0);
        lemma_attrs_pass_none(c, prefix, pre);
        assert(left.push(attrs.last()) =~= attrs);
        assert forall|j: int| 0 <= j < attrs.len() implies (#[trigger] attrs[j]) is Ref && !c.roots.contains_key(
            attr_id(attrs[j]),
        ) by {
            if j < attrs.len() - 1 {
                assert(pre[j] == attrs[j]);
            }
        }
    }
}

/// A pass over the groups that resolves none leaves the catalog and the
/// groups as they are, and every attribute left is a reference to a name
/// that is no root.
proof fn lemma_groups_pass_none(c: CatalogState, gs: Seq<UnresolvedGroupView>)
    requires
        groups_pass(c, gs).2 == 0,
    ensures
        groups_pass(c, gs).0 == c,
        groups_pass(c, gs).1.len() == gs.len(),
        forall|i: int| 0 <= i < gs.len() ==> (#[trigger] groups_pass(c, gs).1[i]).attributes == gs[i].attributes,
        forall|i: int, j: int|
            0 <= i < gs.len() && 0 <= j < gs[i].attributes.len() ==> (#[trigger] gs[i].attributes[j]) is Ref
                && !c.roots.contains_key(attr_id(gs[i].attributes[j])),
    decreases gs.len(),
{
    if gs.len() > 0 {
        let pre = gs.drop_last();
        let (c1, done, resolved, left_count) = groups_pass(c, pre);
        let g = gs.last();
        let (c2, refs, left) = attrs_pass(c1, g.group.prefix, g.attributes);
        assert(resolved == 0 && refs.len() == 0);
        lemma_groups_pass_none(c, pre);
        lemma_attrs_pass_none(c1, g.group.prefix, g.attributes);
        let gs1 = groups_pass(c, gs).1;
        assert forall|i: int| 0 <= i < gs.len() implies (#[trigger] gs1[i]).attributes == gs[i].attributes by {
            if i < gs.len() - 1 {
                assert(gs1[i] == done[i]);
                assert(pre[i] == gs[i]);
            }
        }
        assert forall|i: int, j: int|
            0 <= i < gs.len() && 0 <= j < gs[i].attributes.len() implies (#[trigger] gs[i].attributes[j]) is Ref
                && !c.roots.contains_key(attr_id(gs[i].attributes[j])) by {
            if i < gs.len() - 1 {
                assert(pre[i] == gs[i]);
                assert(pre[i].attributes[j] == gs[i].attributes[j]);
            } else {
                assert(g.attributes[j] == gs[i].attributes[j]);
            }
        }
    }
}

/// Whether a name is the id of an attribute left to resolve in some group.
pub open spec fn left_in(gs: Seq<UnresolvedGroupView>, x: Seq<char>) -> bool {
    exists|i: int, j: int|
        #![trigger gs[i].attributes[j]]
        0 <= i < gs.len() && 0 <= j < gs[i].attributes.len() && x == attr_id(gs[i].attributes[j])
}

/// Every id left to resolve is the id of an attribute left in some group.
proof fn lemma_remaining_ids_from(gs: Seq<UnresolvedGroupView>)
    ensures
        forall|k: int| 0 <= k < remaining_ids(gs).len() ==> left_in(gs, #[trigger] remaining_ids(gs)[k]),
    decreases gs.len(),
{
    if gs.len() > 0 {
        let pre = gs.drop_last();
        lemma_remaining_ids_from(pre);
        let a = remaining_ids(pre);
        let b = gs.last().attributes.map_values(|x: AttributeSpecView| attr_id(x));
        assert(remaining_ids(gs) == a + b);
        assert forall|k: int| 0 <= k < remaining_ids(gs).len() implies left_in(gs, #[trigger] remaining_ids(gs)[k]) by {
            if k < a.len() {
                assert(remaining_ids(gs)[k] == a[k]);
                assert(left_in(pre, a[k]));
                let (i, j) = choose|i: int, j: int|
                    #![trigger pre[i].attributes[j]]
                    0 <= i < pre.len() && 0 <= j < pre[i].attributes.len() && a[k] == attr_id(pre[i].attributes[j]);
                assert(pre[i] == gs[i]);
                assert(gs[i].attributes[j] == pre[i].attributes[j]);
            } else {
                let j = k - a.len();
                let i = gs.len() - 1;
                assert(remaining_ids(gs)[k] == b[j]);
                assert(b[j] == attr_id(gs[i].attributes[j]));
            }
        }
    }
}

/// A pass over the groups keeps each group, and each attribute of a group
/// is either left or added as a reference to the group.
proof fn lemma_groups_pass_groups(c: CatalogState, gs: Seq<UnresolvedGroupView>)
    ensures
        groups_pass(c, gs).1.len() == gs.len(),
        forall|i: int|
            0 <= i < gs.len() ==> (#[trigger] groups_pass(c, gs).1[i]).group.attributes.len()
                + groups_pass(c, gs).1[i].attributes.len() == gs[i].group.attributes.len() + gs[i].attributes.len()
                && groups_pass(c, gs).1[i].group.id == gs[i].group.id && same_but_attributes(
                groups_pass(c, gs).1[i].group,
                gs[i].group,
            ),
    decreases gs.len(),
{
    if gs.len() > 0 {
        let pre = gs.drop_last();
        let (c1, done, resolved, left_count) = groups_pass(c, pre);
        lemma_groups_pass_groups(c, pre);
        lemma_attrs_pass_counts(c1, gs.last().group.prefix, gs.last().attributes);
        let gs1 = groups_pass(c, gs).1;
        assert forall|i: int| 0 <= i < gs.len() implies (#[trigger] gs1[i]).group.attributes.len()
            + gs1[i].attributes.len() == gs[i].group.attributes.len() + gs[i].attributes.len() && gs1[i].group.id
            == gs[i].group.id && same_but_attributes(gs1[i].group, gs[i].group) by {
            if i < gs.len() - 1 {
                assert(gs1[i] == done[i]);
                assert(pre[i] == gs[i]);
            }
        }
    }
}

/// Whether two resolved groups agree on everything but their attribute
/// references.
pub open spec fn same_but_attributes(a: GroupView, b: GroupView) -> bool {
    &&& a.id == b.id
    &&& a.typed_group == b.typed_group
    &&& a.brief == b.brief
    &&& a.note == b.note
    &&& a.prefix == b.prefix
    &&& a.extends == b.extends
    &&& a.stability == b.stability
    &&& a.deprecated == b.deprecated
    &&& a.constraints == b.constraints
}

/// Whether a resolved group carries what its semantic convention group
/// says: id, brief, note, prefix, extends, deprecation and constraints as
/// they are, the stability resolved, and for its type the fields of that
/// type (the kind and events of a span, the name of an event, the metric
/// name, instrument and unit of a metric).
pub open spec fn carries_group(r: GroupView, g: GroupSpecView) -> bool {
    &&& r.id == g.id
    &&& r.brief == g.brief
    &&& r.note == g.note
    &&& r.prefix == g.prefix
    &&& r.extends == g.extends
    &&& r.stability == resolved_stability(g.stability)
    &&& r.deprecated == g.deprecated
    &&& r.constraints == g.constraints
    &&& (g.group_type == ConvType::AttributeGroup ==> r.typed_group == TypedGroupView::AttributeGroup)
    &&& (g.group_type == ConvType::Span ==> r.typed_group == TypedGroupView::Span {
        span_kind: g.span_kind,
        events: g.events,
    })
    &&& (g.group_type == ConvType::Event ==> r.typed_group == TypedGroupView::Event { name: g.name })
    &&& (g.group_type == ConvType::Metric ==> r.typed_group == TypedGroupView::Metric {
        metric_name: g.metric_name,
        instrument: g.instrument,
        unit: g.unit,
    })
    &&& (g.group_type == ConvType::MetricGroup ==> r.typed_group == TypedGroupView::MetricGroup)
    &&& (g.group_type == ConvType::Resource ==> r.typed_group == TypedGroupView::Resource)
    &&& (g.group_type == ConvType::Scope ==> r.typed_group == TypedGroupView::Scope)
}

/// A group made from a semantic convention group carries what that group
/// says, with no attribute reference yet and all of its attributes left to
/// resolve.
pub proof fn lemma_unresolved_group_carries(g: GroupSpecView)
    ensures
        carries_group(unresolved_group(g).group, g),
        unresolved_group(g).group.attributes.len() == 0,
        unresolved_group(g).attributes == g.attributes,
{
}

/// Resolving the registry of a set of semantic convention specifications:
/// when it succeeds, the `i`-th resolved group carries what the `i`-th group
/// of the specifications says (its type's fields included: a metric keeps
/// its name, instrument and unit), with one attribute reference for each
/// of its attributes.
pub proof fn lemma_registry_carries_groups(c: CatalogState, specs: Seq<SemConvSpec>)
    ensures
        ({
            let gs = all_groups(specs);
            registry_fixpoint(c, gs.map_values(|g: GroupSpecView| unresolved_group(g))).1 matches Ok(r) ==> {
                &&& r.len() == gs.len()
                &&& forall|i: int|
                    0 <= i < r.len() ==> carries_group((#[trigger] r[i]).group, gs[i])
                        && r[i].group.attributes.len() == gs[i].attributes.len()
            }
        }),
{
    let gs = all_groups(specs);
    let us = gs.map_values(|g: GroupSpecView| unresolved_group(g));
    lemma_registry_resolution(c, us);
    if let Ok(r) = registry_fixpoint(c, us).1 {
        assert forall|i: int| 0 <= i < r.len() implies carries_group((#[trigger] r[i]).group, gs[i])
            && r[i].group.attributes.len() == gs[i].attributes.len() by {
            assert(us[i] == unresolved_group(gs[i]));
            lemma_unresolved_group_carries(gs[i]);
        }
    }
}

/// Resolving a registry, stated directly: when it succeeds, each group is
/// kept, with one reference for each attribute it had left to resolve and
/// none left; when it fails, the ids it reports are those of references to
/// names that the catalog it reached has no root for (no definition of any
/// group and no root it started with has that name).
pub proof fn lemma_registry_resolution(c: CatalogState, gs: Seq<UnresolvedGroupView>)
    ensures
        registry_fixpoint(c, gs).1 matches Ok(r) ==> r.len() == gs.len() && forall|i: int|
            0 <= i < r.len() ==> (#[trigger] r[i]).attributes.len() == 0 && r[i].group.attributes.len()
                == gs[i].group.attributes.len() + gs[i].attributes.len() && r[i].group.id == gs[i].group.id
                && same_but_attributes(r[i].group, gs[i].group),
        registry_fixpoint(c, gs).1 matches Err(ids) ==> ids.len() > 0 && forall|k: int|
            0 <= k < ids.len() ==> !registry_fixpoint(c, gs).0.roots.contains_key(#[trigger] ids[k]),
    decreases unresolved_count(gs),
{
    let (c1, gs1, resolved, left) = groups_pass(c, gs);
    lemma_groups_pass_counts(c, gs);
    lemma_groups_pass_groups(c, gs);
    lemma_resolution_complete(c, gs);
    if left == 0 {
        lemma_unresolved_count_zero(gs1);
    } else if resolved == 0 {
        lemma_groups_pass_none(c, gs);
        lemma_remaining_ids_from(gs1);
        let ids = remaining_ids(gs1);
        assert forall|k: int| 0 <= k < ids.len() implies !c1.roots.contains_key(#[trigger] ids[k]) by {
            assert(left_in(gs1, ids[k]));
            let (i, j) = choose|i: int, j: int|
                #![trigger gs1[i].attributes[j]]
                0 <= i < gs1.len() && 0 <= j < gs1[i].attributes.len() && ids[k] == attr_id(
                    gs1[i].attributes[j],
                );
            assert(gs1[i].attributes == gs[i].attributes);
            assert(gs[i].attributes[j] == gs1[i].attributes[j]);
        }
    } else {
        lemma_registry_resolution(c1, gs1);
        if let Ok(r) = registry_fixpoint(c1, gs1).1 {
            assert forall|i: int| 0 <= i < r.len() implies (#[trigger] r[i]).attributes.len() == 0
                && r[i].group.attributes.len() == gs[i].group.attributes.len() + gs[i].attributes.len()
                && r[i].group.id == gs[i].group.id && same_but_attributes(r[i].group, gs[i].group) by {
                assert(gs1[i].group.attributes.len() + gs1[i].attributes.len() == gs[i].group.attributes.len()
                    + gs[i].attributes.len());
            }
        }
    }
}

proof fn lemma_remaining_ids_len(gs: Seq<UnresolvedGroupView>)
    ensures
        remaining_ids(gs).len() == unresolved_count(gs),
    decreases gs.len(),
{
    if gs.len() > 0 {
        lemma_remaining_ids_len(gs.drop_last());
    }
}

} // verus!
