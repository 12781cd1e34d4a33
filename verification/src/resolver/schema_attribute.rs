//! Resolution of the attributes of a telemetry schema against a semantic
//! convention catalog.
use vstd::prelude::*;
use crate::key_map::{KeyMap, entries_map, lemma_entries_map_contains, lemma_entries_map_value};
use crate::resolver::{Error, ErrorView};
use crate::schema::attribute::{
    Attribute, AttributeView, clone_schema_attributes, from_semconv_view, lemma_reference_overrides_definition,
    opt_tags, overrides_definition, resolved_from, schema_attrs_view, with_tags,
};
use crate::schema::error_text as schema_error_text;
use crate::semconv::attribute::AttributeView as AttributeSpecView;
use crate::semconv::catalog::{ErrorView as CatalogErrorView, SemConvCatalog, error_text as catalog_error_text};
use crate::semconv::group::ConvType;
use crate::sorted::{into_sorted_values, is_value_of, lemma_sorted_values_of, sorted_values, view_values};
use crate::version::{Category, VersionChanges};

verus! {

/// The id of a schema attribute that is a reference or a definition.
pub open spec fn schema_attr_id(a: AttributeView) -> Seq<char> {
    match a {
        AttributeView::Ref { reference, .. } => reference,
        AttributeView::Id { id, .. } => id,
        AttributeView::AttributeGroupRef { attribute_group_ref, .. } => attribute_group_ref,
    }
}

/// Whether no attribute of a sequence is a reference to an attribute group.
pub open spec fn no_group_refs(s: Seq<AttributeView>) -> bool {
    forall|i: int| 0 <= i < s.len() ==> !(#[trigger] s[i] is AttributeGroupRef)
}

/// The ids of a sequence of attributes.
pub open spec fn attr_ids(s: Seq<AttributeView>) -> Seq<Seq<char>> {
    s.map_values(|a: AttributeView| schema_attr_id(a))
}

/// The main attributes followed by the inherited attributes whose id no main
/// attribute has.
pub open spec fn merged(main: Seq<AttributeView>, inherited: Seq<AttributeView>) -> Seq<AttributeView> {
    main + inherited.filter(|a: AttributeView| !attr_ids(main).contains(schema_attr_id(a)))
}

/// The id of a schema attribute that is a reference or a definition.
fn attribute_id(attr: &Attribute) -> (r: String)
    ensures
        r@ == schema_attr_id(attr@),
{
    match attr {
        Attribute::Ref { reference, .. } => reference.clone(),
        Attribute::Id { id, .. } => id.clone(),
        Attribute::AttributeGroupRef { attribute_group_ref, .. } => attribute_group_ref.clone(),
    }
}

/// Merges the given main attributes with the inherited attributes.
/// Main attributes have precedence over inherited attributes.
pub fn merge_attributes(main_attrs: &[Attribute], inherited_attrs: &[Attribute]) -> (r: Vec<Attribute>)
    requires
        no_group_refs(schema_attrs_view(main_attrs@)),
        no_group_refs(schema_attrs_view(inherited_attrs@)),
    ensures
        schema_attrs_view(r@) == merged(schema_attrs_view(main_attrs@), schema_attrs_view(inherited_attrs@)),
{
    let ghost mv = schema_attrs_view(main_attrs@);
    let ghost iv = schema_attrs_view(inherited_attrs@);
    let mut merged_attrs = clone_schema_attributes(main_attrs);
    let mut main_attr_ids: KeyMap<()> = KeyMap::new();
    let mut i: usize = 0;
    while i < main_attrs.len()
        invariant
            i <= main_attrs@.len(),
            mv == schema_attrs_view(main_attrs@),
            forall|k: Seq<char>| #[trigger] main_attr_ids@.contains_key(k) <==> attr_ids(mv.subrange(0, i as int)).contains(k),
        decreases main_attrs@.len() - i,
    {
        let id = attribute_id(&main_attrs[i]);
        let ghost old_m = main_attr_ids@;
        let _ = main_attr_ids.insert(id, ());
        proof {
            let ids0 = attr_ids(mv.subrange(0, i as int));
            let ids1 = attr_ids(mv.subrange(0, i + 1));
            assert(ids1 =~= ids0.push(schema_attr_id(mv[i as int])));
            assert forall|k: Seq<char>| #[trigger] main_attr_ids@.contains_key(k) <==> ids1.contains(k) by {
                if k == schema_attr_id(mv[i as int]) {
                    assert(ids1[i as int] == k);
                } else {
                    if ids0.contains(k) {
                        let j = choose|j: int| 0 <= j < ids0.len() && #[trigger] ids0[j] == k;
                        assert(ids1[j] == k);
                    }
                    if ids1.contains(k) {
                        let j = choose|j: int| 0 <= j < ids1.len() && #[trigger] ids1[j] == k;
                        assert(j < i);
                        assert(ids0[j] == k);
                    }
                }
            }
        }
        i = i + 1;
    }
    proof {
        assert(mv.subrange(0, i as int) == mv);
    }
    let ghost pred = |a: AttributeView| !attr_ids(mv).contains(schema_attr_id(a));
    let mut j: usize = 0;
    proof {
        reveal(Seq::filter);
        assert(iv.subrange(0, 0) =~= Seq::<AttributeView>::empty());
        assert(schema_attrs_view(merged_attrs@) =~= mv + iv.subrange(0, 0).filter(pred));
    }
    while j < inherited_attrs.len()
        invariant
            j <= inherited_attrs@.len(),
            iv == schema_attrs_view(inherited_attrs@),
            forall|k: Seq<char>| #[trigger] main_attr_ids@.contains_key(k) <==> attr_ids(mv).contains(k),
            pred == (|a: AttributeView| !attr_ids(mv).contains(schema_attr_id(a))),
            schema_attrs_view(merged_attrs@) == mv + iv.subrange(0, j as int).filter(pred),
        decreases inherited_attrs@.len() - j,
    {
        let inherited_attr = &inherited_attrs[j];
        let id = attribute_id(inherited_attr);
        proof {
            assert(iv.subrange(0, j + 1).drop_last() =~= iv.subrange(0, j as int));
            assert(iv.subrange(0, j + 1).last() == inherited_attr@);
        }
        proof {
            reveal(Seq::filter);
            let prev = iv.subrange(0, j as int).filter(pred);
            assert(iv.subrange(0, j + 1).filter(pred) == if pred(inherited_attr@) {
                prev.push(inherited_attr@)
            } else {
                prev
            });
        }
        if !main_attr_ids.contains_key(id.as_str()) {
            let ghost before = schema_attrs_view(merged_attrs@);
            merged_attrs.push(inherited_attr.clone());
            proof {
                assert(schema_attrs_view(merged_attrs@) =~= before.push(inherited_attr@));
            }
        }
        j = j + 1;
    }
    proof {
        assert(iv.subrange(0, j as int) == iv);
    }
    merged_attrs
}

/// The attributes that an attribute group brings in: those of the catalog
/// among the ids of the group, as schema attributes with the given tags.
pub open spec fn imported(
    c: SemConvCatalog,
    ids: Set<Seq<char>>,
    tags: Option<Map<Seq<char>, Seq<char>>>,
) -> Map<Seq<char>, AttributeView> {
    Map::new(
        |k: Seq<char>| ids.contains(k) && c.attributes().contains_key(k),
        |k: Seq<char>| with_tags(from_semconv_view(c.attributes()[k]), tags),
    )
}

/// Resolving an attribute group reference: the attributes of the group enter
/// the map, replacing those with the same ids; an error when the catalog has
/// no such attribute group. Other attributes leave the map as it is.
pub open spec fn group_ref_step(c: SemConvCatalog, m: Map<Seq<char>, AttributeView>, a: AttributeView) -> Result<
    Map<Seq<char>, AttributeView>,
    ErrorView,
> {
    match a {
        AttributeView::AttributeGroupRef { attribute_group_ref, tags } => {
            let table = c.table(ConvType::AttributeGroup);
            if table.contains_key(attribute_group_ref) {
                Ok(m.union_prefer_right(imported(c, table[attribute_group_ref].ids, tags)))
            } else {
                Err(
                    ErrorView::FailToResolveAttributes {
                        ids: seq![attribute_group_ref],
                        error: catalog_error_text(CatalogErrorView::AttributeNotFound { reference: attribute_group_ref }),
                    },
                )
            }
        },
        _ => Ok(m),
    }
}

/// The new name of an attribute under some renamings.
pub open spec fn renamed(renames: Map<Seq<char>, Seq<char>>, name: Seq<char>) -> Seq<char> {
    if renames.contains_key(name) {
        renames[name]
    } else {
        name
    }
}

/// Resolving an attribute reference: the attribute is resolved against the
/// catalog's definition under the reference's current name, and enters the
/// map under that name; an error when it cannot be resolved. Other
/// attributes leave the map as it is.
pub open spec fn ref_step(
    c: SemConvCatalog,
    renames: Map<Seq<char>, Seq<char>>,
    m: Map<Seq<char>, AttributeView>,
    a: AttributeView,
) -> Result<Map<Seq<char>, AttributeView>, ErrorView> {
    match a {
        AttributeView::Ref { reference, .. } => {
            let name = renamed(renames, reference);
            let def = if c.attributes().contains_key(name) {
                Some(c.attributes()[name])
            } else {
                None
            };
            match resolved_from(a, def) {
                Ok(v) => Ok(m.insert(name, v)),
                Err(e) => Err(ErrorView::FailToResolveAttributes { ids: seq![reference], error: schema_error_text(e) }),
            }
        },
        _ => Ok(m),
    }
}

/// Resolving a schema reference whose name (after the renamings) the
/// catalog defines puts, under that name, what the reference stands for
/// against the catalog's definition, the reference's overrides winning field
/// by field; no other entry of the map changes.
pub proof fn lemma_ref_step_overrides(
    c: SemConvCatalog,
    renames: Map<Seq<char>, Seq<char>>,
    m: Map<Seq<char>, AttributeView>,
    a: AttributeView,
)
    requires
        a is Ref,
        c.attributes().contains_key(renamed(renames, a->Ref_reference)),
        c.attributes()[renamed(renames, a->Ref_reference)] is Id,
    ensures
        ({
            let name = renamed(renames, a->Ref_reference);
            &&& ref_step(c, renames, m, a) matches Ok(m2)
            &&& m2.contains_key(name)
            &&& overrides_definition(a, c.attributes()[name], m2[name])
            &&& m2.remove(name) == m.remove(name)
        }),
{
    let name = renamed(renames, a->Ref_reference);
    lemma_reference_overrides_definition(a, c.attributes()[name]);
    let m2 = ref_step(c, renames, m, a)->Ok_0;
    assert(m2.remove(name) =~= m.remove(name));
}

/// Adding an attribute definition: it enters the map under its id. Other
/// attributes leave the map as it is.
pub open spec fn id_step(m: Map<Seq<char>, AttributeView>, a: AttributeView) -> Map<Seq<char>, AttributeView> {
    match a {
        AttributeView::Id { id, .. } => m.insert(id, a),
        _ => m,
    }
}

/// The group references of a sequence, in order, stopping at the first error.
pub open spec fn group_refs_fold(c: SemConvCatalog, m: Map<Seq<char>, AttributeView>, s: Seq<AttributeView>) -> Result<
    Map<Seq<char>, AttributeView>,
    ErrorView,
>
    decreases s.len(),
{
    if s.len() == 0 {
        Ok(m)
    } else {
        match group_refs_fold(c, m, s.drop_last()) {
            Ok(m1) => group_ref_step(c, m1, s.last()),
            Err(e) => Err(e),
        }
    }
}

/// The attribute references of a sequence, in order, stopping at the first
/// error.
pub open spec fn refs_fold(
    c: SemConvCatalog,
    renames: Map<Seq<char>, Seq<char>>,
    m: Map<Seq<char>, AttributeView>,
    s: Seq<AttributeView>,
) -> Result<Map<Seq<char>, AttributeView>, ErrorView>
    decreases s.len(),
{
    if s.len() == 0 {
        Ok(m)
    } else {
        match refs_fold(c, renames, m, s.drop_last()) {
            Ok(m1) => ref_step(c, renames, m1, s.last()),
            Err(e) => Err(e),
        }
    }
}

/// The attribute definitions of a sequence, in order.
pub open spec fn ids_fold(m: Map<Seq<char>, AttributeView>, s: Seq<AttributeView>) -> Map<Seq<char>, AttributeView>
    decreases s.len(),
{
    if s.len() == 0 {
        m
    } else {
        id_step(ids_fold(m, s.drop_last()), s.last())
    }
}

/// The map of resolved attributes by id: first the attribute group
/// references, then the attribute references, then the definitions, each
/// kind in order, a later entry replacing an earlier one with the same id.
pub open spec fn resolved_map(
    c: SemConvCatalog,
    renames: Map<Seq<char>, Seq<char>>,
    s: Seq<AttributeView>,
) -> Result<Map<Seq<char>, AttributeView>, ErrorView> {
    match group_refs_fold(c, Map::empty(), s) {
        Err(e) => Err(e),
        Ok(m1) => match refs_fold(c, renames, m1, s) {
            Err(e) => Err(e),
            Ok(m2) => Ok(ids_fold(m2, s)),
        },
    }
}

proof fn lemma_group_refs_fold_error_sticks(c: SemConvCatalog, m: Map<Seq<char>, AttributeView>, s: Seq<AttributeView>, k: int)
    requires
        0 <= k <= s.len(),
        group_refs_fold(c, m, s.subrange(0, k)) is Err,
    ensures
        group_refs_fold(c, m, s) == group_refs_fold(c, m, s.subrange(0, k)),
    decreases s.len() - k,
{
    if k < s.len() {
        assert(s.subrange(0, k + 1).drop_last() == s.subrange(0, k));
        lemma_group_refs_fold_error_sticks(c, m, s, k + 1);
    } else {
        assert(s.subrange(0, k) == s);
    }
}

proof fn lemma_refs_fold_error_sticks(
    c: SemConvCatalog,
    renames: Map<Seq<char>, Seq<char>>,
    m: Map<Seq<char>, AttributeView>,
    s: Seq<AttributeView>,
    k: int,
)
    requires
        0 <= k <= s.len(),
        refs_fold(c, renames, m, s.subrange(0, k)) is Err,
    ensures
        refs_fold(c, renames, m, s) == refs_fold(c, renames, m, s.subrange(0, k)),
    decreases s.len() - k,
{
    if k < s.len() {
        assert(s.subrange(0, k + 1).drop_last() == s.subrange(0, k));
        lemma_refs_fold_error_sticks(c, renames, m, s, k + 1);
    } else {
        assert(s.subrange(0, k) == s);
    }
}

/// Whether one of the first `n` keys of a list of pairs is `k`.
spec fn key_among<V>(ids: Seq<(String, V)>, n: int, k: Seq<char>) -> bool {
    exists|j: int| 0 <= j < n && ids[j].0@ == k
}

/// Copies the attributes of an attribute group into the map of resolved
/// attributes, with the given tags.
fn copy_into_resolved_attrs(
    resolved_attrs: &mut KeyMap<Attribute>,
    attrs: &KeyMap<&crate::semconv::attribute::Attribute>,
    tags: &Option<crate::tags::Tags>,
    Ghost(c): Ghost<SemConvCatalog>,
    Ghost(ids): Ghost<Set<Seq<char>>>,
)
    requires
        forall|k: Seq<char>| #[trigger] attrs@.contains_key(k) <==> ids.contains(k) && c.attributes().contains_key(k),
        forall|k: Seq<char>| #[trigger] attrs@.contains_key(k) ==> attrs@[k]@ == c.attributes()[k],
    ensures
        view_values(final(resolved_attrs)@) == view_values(old(resolved_attrs)@).union_prefer_right(
            imported(c, ids, opt_tags(*tags)),
        ),
{
    let ghost m0 = view_values(resolved_attrs@);
    let ghost es = attrs.entries();
    let n = attrs.len();
    let mut i: usize = 0;
    while i < n
        invariant
            i <= n,
            n == es.len(),
            es == attrs.entries(),
            attrs@ == entries_map(es),
            forall|k: Seq<char>| #[trigger] attrs@.contains_key(k) <==> ids.contains(k) && c.attributes().contains_key(k),
            forall|k: Seq<char>| #[trigger] attrs@.contains_key(k) ==> attrs@[k]@ == c.attributes()[k],
            view_values(resolved_attrs@) == m0.union_prefer_right(
                imported(c, ids, opt_tags(*tags)).restrict(Set::new(|k: Seq<char>| key_among(es, i as int, k))),
            ),
        decreases n - i,
    {
        let (attr_id, attr) = attrs.pair_at(i);
        let mut a = Attribute::from_semconv(*attr);
        a.set_tags(tags);
        let ghost before = view_values(resolved_attrs@);
        let _ = resolved_attrs.insert(attr_id.clone(), a);
        proof {
            let imp = imported(c, ids, opt_tags(*tags));
            assert(view_values(resolved_attrs@) =~= before.insert(attr_id@, imp[attr_id@]));
            assert(view_values(resolved_attrs@) =~= m0.union_prefer_right(
                imp.restrict(Set::new(|k: Seq<char>| key_among(es, i + 1, k))),
            )) by {
                assert forall|k: Seq<char>| key_among(es, i + 1, k) <==> (key_among(es, i as int, k) || k == es[i as int].0@) by {
                    if k == es[i as int].0@ {
                        assert(0 <= i < i + 1 && es[i as int].0@ == k);
                    }
                    if key_among(es, i + 1, k) {
                        let j = choose|j: int| 0 <= j < i + 1 && es[j].0@ == k;
                        if j < i {
                            assert(0 <= j < i && es[j].0@ == k);
                        }
                    }
                }
            }
        }
        i = i + 1;
    }
    proof {
        let imp = imported(c, ids, opt_tags(*tags));
        assert(imp.restrict(Set::new(|k: Seq<char>| key_among(es, n as int, k))) =~= imp) by {
            assert forall|k: Seq<char>| imp.contains_key(k) implies key_among(es, n as int, k) by {
                lemma_entries_map_contains(es, k);
            }
            assert forall|k: Seq<char>| key_among(es, n as int, k) implies imp.contains_key(k) by {
                let j = choose|j: int| 0 <= j < n && es[j].0@ == k;
                lemma_entries_map_contains(es, k);
            }
        }
    }
}

/// Resolves a collection of attributes (attribute group references,
/// attribute references and attribute definitions) from the given semantic
/// convention catalog: the attribute group references are resolved first,
/// then the references, and finally the definitions are added. A reference
/// overrides an attribute of an attribute group, and a definition overrides
/// either. The result is ordered by attribute id.
///
/// The names of referenced attributes are those of the given version
/// changes, in the given category.
pub fn resolve_attributes(
    attributes: &[Attribute],
    sem_conv_catalog: &SemConvCatalog,
    version_changes: &VersionChanges,
    category: Category,
) -> (r: Result<Vec<Attribute>, Error>)
    ensures
        match resolved_map(*sem_conv_catalog, version_changes.renames(category), schema_attrs_view(attributes@)) {
            Ok(m) => r matches Ok(v) && schema_attrs_view(v@) == sorted_values(m),
            Err(e) => r matches Err(x) && x@ == e,
        },
{
    let ghost s = schema_attrs_view(attributes@);
    let ghost c = *sem_conv_catalog;
    let ghost renames = version_changes.renames(category);
    let mut resolved_attrs: KeyMap<Attribute> = KeyMap::new();
    proof {
        assert(view_values(resolved_attrs@) =~= Map::<Seq<char>, AttributeView>::empty());
        assert(s.subrange(0, 0) =~= Seq::<AttributeView>::empty());
    }
    // Resolve the attribute group references.
    let mut i: usize = 0;
    while i < attributes.len()
        invariant
            i <= attributes@.len(),
            s == schema_attrs_view(attributes@),
            c == *sem_conv_catalog,
            group_refs_fold(c, Map::empty(), s.subrange(0, i as int)) == Ok::<
                Map<Seq<char>, AttributeView>,
                ErrorView,
            >(view_values(resolved_attrs@)),
        decreases attributes@.len() - i,
    {
        proof {
            assert(s.subrange(0, i + 1).drop_last() =~= s.subrange(0, i as int));
            assert(s.subrange(0, i + 1).last() == attributes@[i as int]@);
        }
        match &attributes[i] {
            Attribute::AttributeGroupRef { attribute_group_ref, tags } => {
                match sem_conv_catalog.get_attributes(attribute_group_ref.as_str(), ConvType::AttributeGroup) {
                    Ok(attrs) => {
                        copy_into_resolved_attrs(
                            &mut resolved_attrs,
                            &attrs,
                            tags,
                            Ghost(c),
                            Ghost(c.table(ConvType::AttributeGroup)[attribute_group_ref@].ids),
                        );
                    },
                    Err(e) => {
                        let mut ids: Vec<String> = Vec::new();
                        ids.push(attribute_group_ref.clone());
                        let err = Error::FailToResolveAttributes { ids, error: e.to_text() };
                        proof {
                            assert(ids@.map_values(|t: String| t@) =~= seq![attribute_group_ref@]);
                            lemma_group_refs_fold_error_sticks(c, Map::empty(), s, i + 1);
                        }
                        return Err(err);
                    },
                }
            },
            _ => {},
        }
        i = i + 1;
    }
    proof {
        assert(s.subrange(0, i as int) == s);
    }
    let ghost m1 = view_values(resolved_attrs@);
    // Resolve the attribute references.
    let mut i: usize = 0;
    while i < attributes.len()
        invariant
            i <= attributes@.len(),
            s == schema_attrs_view(attributes@),
            c == *sem_conv_catalog,
            renames == version_changes.renames(category),
            group_refs_fold(c, Map::empty(), s) == Ok::<Map<Seq<char>, AttributeView>, ErrorView>(m1),
            refs_fold(c, renames, m1, s.subrange(0, i as int)) == Ok::<Map<Seq<char>, AttributeView>, ErrorView>(
                view_values(resolved_attrs@),
            ),
        decreases attributes@.len() - i,
    {
        proof {
            assert(s.subrange(0, i + 1).drop_last() =~= s.subrange(0, i as int));
            assert(s.subrange(0, i + 1).last() == attributes@[i as int]@);
        }
        let attribute = &attributes[i];
        match attribute {
            Attribute::Ref { reference, .. } => {
                let normalized_ref = version_changes.get_attribute_name(category, reference.as_str());
                let sem_conv_attr = sem_conv_catalog.get_attribute(normalized_ref.as_str());
                match attribute.resolve_from(sem_conv_attr) {
                    Ok(resolved_attribute) => {
                        let ghost before = view_values(resolved_attrs@);
                        let ghost v = resolved_attribute@;
                        let _ = resolved_attrs.insert(normalized_ref, resolved_attribute);
                        proof {
                            assert(view_values(resolved_attrs@) =~= before.insert(renamed(renames, reference@), v));
                        }
                    },
                    Err(e) => {
                        let mut ids: Vec<String> = Vec::new();
                        ids.push(reference.clone());
                        let err = Error::FailToResolveAttributes { ids, error: e.to_text() };
                        proof {
                            assert(ids@.map_values(|t: String| t@) =~= seq![reference@]);
                            lemma_refs_fold_error_sticks(c, renames, m1, s, i + 1);
                        }
                        return Err(err);
                    },
                }
            },
            _ => {},
        }
        i = i + 1;
    }
    proof {
        assert(s.subrange(0, i as int) == s);
    }
    let ghost m2 = view_values(resolved_attrs@);
    // Add the attribute definitions; they override the attributes resolved
    // with the same id.
    let mut i: usize = 0;
    while i < attributes.len()
        invariant
            i <= attributes@.len(),
            s == schema_attrs_view(attributes@),
            ids_fold(m2, s.subrange(0, i as int)) == view_values(resolved_attrs@),
        decreases attributes@.len() - i,
    {
        proof {
            assert(s.subrange(0, i + 1).drop_last() =~= s.subrange(0, i as int));
            assert(s.subrange(0, i + 1).last() == attributes@[i as int]@);
        }
        let attribute = &attributes[i];
        match attribute {
            Attribute::Id { id, .. } => {
                let ghost before = view_values(resolved_attrs@);
                let _ = resolved_attrs.insert(id.clone(), attribute.clone());
                proof {
                    assert(view_values(resolved_attrs@) =~= before.insert(id@, attribute@));
                }
            },
            _ => {},
        }
        i = i + 1;
    }
    proof {
        assert(s.subrange(0, i as int) == s);
    }
    let out = into_sorted_values(resolved_attrs);
    proof {
        assert(schema_attrs_view(out@) =~= out@.map_values(|v: Attribute| v@));
    }
    Ok(out)
}

/// Whether no value of a map is a reference to an attribute group.
pub open spec fn no_group_ref_values(m: Map<Seq<char>, AttributeView>) -> bool {
    forall|k: Seq<char>| #[trigger] m.contains_key(k) ==> !(m[k] is AttributeGroupRef)
}

proof fn lemma_group_refs_fold_values(c: SemConvCatalog, m: Map<Seq<char>, AttributeView>, s: Seq<AttributeView>)
    requires
        no_group_ref_values(m),
        m.dom().finite(),
    ensures
        group_refs_fold(c, m, s) matches Ok(r) ==> no_group_ref_values(r) && r.dom().finite(),
    decreases s.len(),
{
    if s.len() > 0 {
        lemma_group_refs_fold_values(c, m, s.drop_last());
        match group_refs_fold(c, m, s.drop_last()) {
            Ok(m1) => {
                match s.last() {
                    AttributeView::AttributeGroupRef { attribute_group_ref, tags } => {
                        let table = c.table(ConvType::AttributeGroup);
                        if table.contains_key(attribute_group_ref) {
                            let imp = imported(c, table[attribute_group_ref].ids, tags);
                            assert(imp.dom().subset_of(c.attributes().dom()));
                            lemma_catalog_attributes_finite(c);
                            vstd::set_lib::lemma_len_subset(imp.dom(), c.attributes().dom());
                            assert(m1.union_prefer_right(imp).dom() =~= m1.dom().union(imp.dom()));
                        }
                    },
                    _ => {},
                }
            },
            Err(_) => {},
        }
    }
}

proof fn lemma_catalog_attributes_finite(c: SemConvCatalog)
    ensures
        c.attributes().dom().finite(),
{
    c.lemma_attributes_finite();
}

proof fn lemma_refs_fold_values(
    c: SemConvCatalog,
    renames: Map<Seq<char>, Seq<char>>,
    m: Map<Seq<char>, AttributeView>,
    s: Seq<AttributeView>,
)
    requires
        no_group_ref_values(m),
        m.dom().finite(),
    ensures
        refs_fold(c, renames, m, s) matches Ok(r) ==> no_group_ref_values(r) && r.dom().finite(),
    decreases s.len(),
{
    if s.len() > 0 {
        lemma_refs_fold_values(c, renames, m, s.drop_last());
    }
}

proof fn lemma_ids_fold_values(m: Map<Seq<char>, AttributeView>, s: Seq<AttributeView>)
    requires
        no_group_ref_values(m),
        m.dom().finite(),
    ensures
        no_group_ref_values(ids_fold(m, s)),
        ids_fold(m, s).dom().finite(),
    decreases s.len(),
{
    if s.len() > 0 {
        lemma_ids_fold_values(m, s.drop_last());
    }
}

/// Resolved attributes are never references to attribute groups.
pub proof fn lemma_resolved_no_group_refs(
    c: SemConvCatalog,
    renames: Map<Seq<char>, Seq<char>>,
    s: Seq<AttributeView>,
)
    ensures
        resolved_map(c, renames, s) matches Ok(m) ==> m.dom().finite() && no_group_refs(sorted_values(m)),
{
    let e = Map::<Seq<char>, AttributeView>::empty();
    lemma_group_refs_fold_values(c, e, s);
    if let Ok(m1) = group_refs_fold(c, e, s) {
        lemma_refs_fold_values(c, renames, m1, s);
        if let Ok(m2) = refs_fold(c, renames, m1, s) {
            lemma_ids_fold_values(m2, s);
            let m = ids_fold(m2, s);
            lemma_sorted_values_of(m);
            assert forall|i: int| 0 <= i < sorted_values(m).len() implies !(#[trigger] sorted_values(m)[i] is AttributeGroupRef) by {
                assert(is_value_of(m, sorted_values(m)[i]));
                let k = choose|k: Seq<char>| m.contains_key(k) && m[k] == sorted_values(m)[i];
            }
        }
    }
}

/// Main attributes have precedence over inherited attributes: the main
/// attributes come first, unchanged and in order; after them come inherited
/// attributes only, none with the id of a main attribute; and every
/// inherited attribute whose id no main attribute has is kept.
pub proof fn lemma_merge_precedence(main: Seq<AttributeView>, inherited: Seq<AttributeView>)
    ensures
        merged(main, inherited).len() >= main.len(),
        merged(main, inherited).subrange(0, main.len() as int) == main,
        forall|j: int|
            main.len() <= j < merged(main, inherited).len() ==> !attr_ids(main).contains(
                schema_attr_id(#[trigger] merged(main, inherited)[j]),
            ) && inherited.contains(merged(main, inherited)[j]),
        forall|i: int|
            0 <= i < inherited.len() && !attr_ids(main).contains(schema_attr_id(inherited[i])) ==> merged(
                main,
                inherited,
            ).contains(#[trigger] inherited[i]),
{
    let pred = |a: AttributeView| !attr_ids(main).contains(schema_attr_id(a));
    let f = inherited.filter(pred);
    let m = merged(main, inherited);
    assert(m == main + f);
    assert(m.subrange(0, main.len() as int) =~= main);
    assert forall|j: int| main.len() <= j < m.len() implies !attr_ids(main).contains(schema_attr_id(#[trigger] m[j]))
        && inherited.contains(m[j]) by {
        assert(m[j] == f[j - main.len()]);
        inherited.lemma_filter_pred(pred, j - main.len());
        assert(f.contains(f[j - main.len()]));
        inherited.lemma_filter_contains_rev(pred, f[j - main.len()]);
    }
    assert forall|i: int| 0 <= i < inherited.len() && !attr_ids(main).contains(schema_attr_id(inherited[i])) implies m.contains(
        #[trigger] inherited[i],
    ) by {
        inherited.lemma_filter_contains(pred, i);
        let x = choose|x: int| 0 <= x < f.len() && f[x] == inherited[i];
        assert(m[main.len() + x] == inherited[i]);
    }
}

/// Whether no definition after position `i` has the id `id`.
pub open spec fn last_definition_of(s: Seq<AttributeView>, i: int, id: Seq<char>) -> bool {
    forall|j: int| i < j < s.len() ==> !(#[trigger] s[j] matches AttributeView::Id { id: other, .. } && other == id)
}

proof fn lemma_ids_fold_last(m: Map<Seq<char>, AttributeView>, s: Seq<AttributeView>, i: int)
    requires
        0 <= i < s.len(),
        s[i] is Id,
        last_definition_of(s, i, s[i]->Id_id),
    ensures
        ids_fold(m, s).contains_key(s[i]->Id_id),
        ids_fold(m, s)[s[i]->Id_id] == s[i],
    decreases s.len(),
{
    if i < s.len() - 1 {
        assert forall|j: int| i < j < s.drop_last().len() implies !(#[trigger] s.drop_last()[j] matches AttributeView::Id {
            id: other,
            ..
        } && other == s[i]->Id_id) by {
            assert(s.drop_last()[j] == s[j]);
        }
        assert(s.drop_last()[i] == s[i]);
        lemma_ids_fold_last(m, s.drop_last(), i);
        assert(!(s[s.len() - 1] matches AttributeView::Id { id: other, .. } && other == s[i]->Id_id));
    }
}

/// A definition overrides every other attribute with its id: it is what the
/// resolution gives under its id, unless a later definition has the same id.
pub proof fn lemma_definition_wins(
    c: SemConvCatalog,
    renames: Map<Seq<char>, Seq<char>>,
    s: Seq<AttributeView>,
    i: int,
)
    requires
        0 <= i < s.len(),
        s[i] is Id,
        last_definition_of(s, i, s[i]->Id_id),
    ensures
        resolved_map(c, renames, s) matches Ok(m) ==> m.contains_key(s[i]->Id_id) && m[s[i]->Id_id] == s[i],
{
    if let Ok(m1) = group_refs_fold(c, Map::empty(), s) {
        if let Ok(m2) = refs_fold(c, renames, m1, s) {
            lemma_ids_fold_last(m2, s, i);
        }
    }
}

} // verus!
