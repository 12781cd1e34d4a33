//! Attribute resolution: conversion of semantic convention attributes into
//! resolved attributes, and the catalog that deduplicates them.
use vstd::prelude::*;
use crate::key_map::KeyMap;
use crate::resolved::attribute::{
    Attribute, AttributeRef, AttributeType, AttributeTypeView, AttributeView, EnumEntries,
    EnumEntriesView, Example, ExampleView, RequirementLevel, RequirementLevelView, clone_opt_example,
    clone_opt_level, clone_opt_tags, entries_view, opt_example, resolved_view, same_attribute,
};
use crate::resolved::value::{Value, ValueView, clone_opt_value};
use crate::resolver::stability::{resolve_stability, resolved_stability};
use crate::resolver::{Error, ErrorView};
use crate::semconv::attribute::{
    Attribute as AttributeSpec, AttributeType as AttributeTypeSpec,
    AttributeTypeView as AttributeTypeSpecView, AttributeView as AttributeSpecView,
    BasicAttributeType, BasicRequirementLevel, CustomTypeMember, CustomTypeMemberView, Examples,
    ExamplesView, RequirementLevel as RequirementLevelSpec,
    RequirementLevelView as RequirementLevelSpecView, Value as ValueSpec, ValueView as ValueSpecView,
    clone_opt_text, clone_texts, members_view,
};
use crate::semconv::catalog::{SemConvCatalog, definitions_keyed, fq_id};

verus! {

/// The resolved value of a semantic convention value.
pub open spec fn resolved_value(v: ValueSpecView) -> ValueView {
    match v {
        ValueSpecView::String(s) => ValueView::String(s),
        ValueSpecView::Int(i) => ValueView::Int(i),
        ValueSpecView::Double(d) => ValueView::Double(d),
    }
}

/// The resolved enum member of a semantic convention enum member.
pub open spec fn resolved_member(m: CustomTypeMemberView) -> EnumEntriesView {
    EnumEntriesView { id: m.id, value: resolved_value(m.value), brief: m.brief, note: None }
}

/// The resolved type of a semantic convention attribute type.
pub open spec fn resolved_type(t: AttributeTypeSpecView) -> AttributeTypeView {
    match t {
        AttributeTypeSpecView::Basic(b) => match b {
            BasicAttributeType::Boolean => AttributeTypeView::Boolean,
            BasicAttributeType::Int => AttributeTypeView::Int,
            BasicAttributeType::Double => AttributeTypeView::Double,
            BasicAttributeType::String => AttributeTypeView::String,
            BasicAttributeType::Strings => AttributeTypeView::Strings,
        },
        AttributeTypeSpecView::Custom { allow_custom_values, members } => AttributeTypeView::Enum {
            allow_custom_values,
            members: members.map_values(|m: CustomTypeMemberView| resolved_member(m)),
        },
    }
}

/// The resolved examples of semantic convention examples.
pub open spec fn resolved_examples(e: Option<ExamplesView>) -> Option<ExampleView> {
    match e {
        Some(ExamplesView::Int(v)) => Some(ExampleView::Int(v)),
        Some(ExamplesView::Double(v)) => Some(ExampleView::Double(v)),
        Some(ExamplesView::String(v)) => Some(ExampleView::String(v)),
        Some(ExamplesView::Ints(v)) => Some(ExampleView::Ints(v)),
        Some(ExamplesView::Doubles(v)) => Some(ExampleView::Doubles(v)),
        Some(ExamplesView::Strings(v)) => Some(ExampleView::Strings(v)),
        None => None,
    }
}

/// The resolved requirement level of a semantic convention requirement level.
pub open spec fn resolved_level(l: RequirementLevelSpecView) -> RequirementLevelView {
    match l {
        RequirementLevelSpecView::Basic(BasicRequirementLevel::Required) => RequirementLevelView::Required,
        RequirementLevelSpecView::Basic(BasicRequirementLevel::Recommended) => RequirementLevelView::Recommended(
            None,
        ),
        RequirementLevelSpecView::Basic(BasicRequirementLevel::OptIn) => RequirementLevelView::OptIn,
        RequirementLevelSpecView::Recommended { text } => RequirementLevelView::Recommended(Some(text)),
        RequirementLevelSpecView::ConditionallyRequired { text } => RequirementLevelView::ConditionallyRequired(
            text,
        ),
    }
}

/// The resolved requirement level of an optional one.
pub open spec fn resolved_opt_level(l: Option<RequirementLevelSpecView>) -> Option<RequirementLevelView> {
    match l {
        Some(x) => Some(resolved_level(x)),
        None => None,
    }
}

/// The resolved attribute that an attribute definition (`Id`) gives under a
/// name; it has no tags and no value.
pub open spec fn definition(name: Seq<char>, a: AttributeSpecView) -> AttributeView {
    match a {
        AttributeSpecView::Id {
            attr_type,
            brief,
            examples,
            tag,
            requirement_level,
            sampling_relevant,
            note,
            stability,
            deprecated,
            ..
        } => AttributeView {
            name,
            attr_type: resolved_type(attr_type),
            brief,
            examples: resolved_examples(examples),
            tag,
            requirement_level: resolved_opt_level(requirement_level),
            sampling_relevant,
            note,
            stability: resolved_stability(stability),
            deprecated,
            tags: None,
            value: None,
        },
        AttributeSpecView::Ref { .. } => arbitrary(),
    }
}

/// The resolved attribute that an attribute reference (`Ref`) gives from the
/// root attribute it refers to: each field that the reference sets replaces
/// the root's; type, tags and value are the root's.
pub open spec fn with_overrides(root: AttributeView, a: AttributeSpecView) -> AttributeView {
    match a {
        AttributeSpecView::Ref {
            reference,
            brief,
            examples,
            tag,
            requirement_level,
            sampling_relevant,
            note,
            stability,
            deprecated,
            ..
        } => AttributeView {
            name: reference,
            attr_type: root.attr_type,
            brief: match brief {
                Some(b) => b,
                None => root.brief,
            },
            examples: match examples {
                Some(_) => resolved_examples(examples),
                None => root.examples,
            },
            tag: match tag {
                Some(_) => tag,
                None => root.tag,
            },
            requirement_level: match requirement_level {
                Some(l) => Some(resolved_level(l)),
                None => root.requirement_level,
            },
            sampling_relevant: match sampling_relevant {
                Some(_) => sampling_relevant,
                None => root.sampling_relevant,
            },
            note: match note {
                Some(_) => note,
                None => root.note,
            },
            stability: match stability {
                Some(_) => resolved_stability(stability),
                None => root.stability,
            },
            deprecated: match deprecated {
                Some(_) => deprecated,
                None => root.deprecated,
            },
            tags: root.tags,
            value: root.value,
        },
        AttributeSpecView::Id { .. } => arbitrary(),
    }
}

/// Converts a semantic convention value to a resolved value.
fn semconv_to_resolved_value(value: &ValueSpec) -> (r: Value)
    ensures
        r@ == resolved_value(value@),
{
    match value {
        ValueSpec::String(s) => Value::String { value: s.clone() },
        ValueSpec::Int(i) => Value::Int { value: *i },
        ValueSpec::Double(d) => Value::Double { value: *d },
    }
}

/// Converts a semantic convention attribute type to a resolved attribute type.
pub fn semconv_to_resolved_attr_type(attr_type: &AttributeTypeSpec) -> (r: AttributeType)
    ensures
        r@ == resolved_type(attr_type@),
{
    match attr_type {
        AttributeTypeSpec::Basic(b) => match b {
            BasicAttributeType::Boolean => AttributeType::Boolean,
            BasicAttributeType::Int => AttributeType::Int,
            BasicAttributeType::Double => AttributeType::Double,
            BasicAttributeType::String => AttributeType::String,
            BasicAttributeType::Strings => AttributeType::Strings,
        },
        AttributeTypeSpec::Custom { allow_custom_values, members } => {
            let mut out: Vec<EnumEntries> = Vec::new();
            let mut i: usize = 0;
            while i < members.len()
                invariant
                    i <= members@.len(),
                    out@.len() == i,
                    forall|j: int| 0 <= j < i ==> (#[trigger] out@[j])@ == resolved_member(members@[j]@),
                decreases members@.len() - i,
            {
                let member: &CustomTypeMember = &members[i];
                out.push(
                    EnumEntries {
                        id: member.id.clone(),
                        value: semconv_to_resolved_value(&member.value),
                        brief: clone_opt_text(&member.brief),
                        note: None,
                    },
                );
                i = i + 1;
            }
            proof {
                assert(entries_view(out@) =~= members_view(members@).map_values(
                    |m: CustomTypeMemberView| resolved_member(m),
                ));
            }
            AttributeType::Enum { allow_custom_values: *allow_custom_values, members: out }
        },
    }
}

/// A copy of a vector of plain values.
fn copy_plain<T: Copy>(v: &Vec<T>) -> (r: Vec<T>)
    ensures
        r@ == v@,
{
    let mut out: Vec<T> = Vec::new();
    let mut i: usize = 0;
    while i < v.len()
        invariant
            i <= v@.len(),
            out@ == v@.subrange(0, i as int),
        decreases v@.len() - i,
    {
        out.push(v[i]);
        proof {
            assert(out@ =~= v@.subrange(0, i + 1));
        }
        i = i + 1;
    }
    proof {
        assert(v@.subrange(0, v@.len() as int) == v@);
    }
    out
}

/// Converts semantic convention examples to resolved examples.
pub fn semconv_to_resolved_examples(examples: &Option<Examples>) -> (r: Option<Example>)
    ensures
        opt_example(r) == resolved_examples(crate::semconv::attribute::opt_examples(*examples)),
{
    match examples {
        Some(Examples::Int(v)) => Some(Example::Int { value: *v }),
        Some(Examples::Double(v)) => Some(Example::Double { value: *v }),
        Some(Examples::String(v)) => Some(Example::String { value: v.clone() }),
        Some(Examples::Ints(v)) => Some(Example::Ints { values: copy_plain(v) }),
        Some(Examples::Doubles(v)) => Some(Example::Doubles { values: copy_plain(v) }),
        Some(Examples::Strings(v)) => Some(Example::Strings { values: clone_texts(v) }),
        None => None,
    }
}

/// Converts a semantic convention requirement level to a resolved one.
pub fn semconv_to_resolved_req_level(req_level: &RequirementLevelSpec) -> (r: RequirementLevel)
    ensures
        r@ == resolved_level(req_level@),
{
    match req_level {
        RequirementLevelSpec::Basic(level) => match level {
            BasicRequirementLevel::Required => RequirementLevel::Required,
            BasicRequirementLevel::Recommended => RequirementLevel::Recommended { text: None },
            BasicRequirementLevel::OptIn => RequirementLevel::OptIn,
        },
        RequirementLevelSpec::Recommended { text } => RequirementLevel::Recommended { text: Some(text.clone()) },
        RequirementLevelSpec::ConditionallyRequired { text } => RequirementLevel::ConditionallyRequired {
            text: text.clone(),
        },
    }
}

/// Converts an optional semantic convention requirement level.
fn semconv_to_resolved_opt_level(req_level: &Option<RequirementLevelSpec>) -> (r: Option<RequirementLevel>)
    ensures
        crate::resolved::attribute::opt_level(r) == resolved_opt_level(
            crate::semconv::attribute::opt_level(*req_level),
        ),
{
    match req_level {
        Some(l) => Some(semconv_to_resolved_req_level(l)),
        None => None,
    }
}

/// The resolved attribute of a definition (`Id`) under a given name.
fn definition_of(name: String, attr: &AttributeSpec) -> (r: Attribute)
    requires
        attr is Id,
    ensures
        r@ == definition(name@, attr@),
{
    match attr {
        AttributeSpec::Id {
            attr_type,
            brief,
            examples,
            tag,
            requirement_level,
            sampling_relevant,
            note,
            stability,
            deprecated,
            ..
        } => Attribute {
            name,
            attr_type: semconv_to_resolved_attr_type(attr_type),
            brief: brief.clone(),
            examples: semconv_to_resolved_examples(examples),
            tag: clone_opt_text(tag),
            requirement_level: semconv_to_resolved_opt_level(requirement_level),
            sampling_relevant: *sampling_relevant,
            note: clone_opt_text(note),
            stability: resolve_stability(stability),
            deprecated: clone_opt_text(deprecated),
            tags: None,
            value: None,
        },
        AttributeSpec::Ref { .. } => {
            proof {
                assert(false);
            }
            Attribute {
                name,
                attr_type: AttributeType::Boolean,
                brief: String::new(),
                examples: None,
                tag: None,
                requirement_level: None,
                sampling_relevant: None,
                note: None,
                stability: None,
                deprecated: None,
                tags: None,
                value: None,
            }
        },
    }
}

/// The message of the error for an attribute reference missing from the registry.
pub open spec fn ref_not_found_message() -> Seq<char> {
    "Attribute ref not found in the resolved registry"@
}

/// What resolving an attribute against the attributes of a registry gives:
/// a definition resolves directly, a reference through the definition it
/// refers to (an error when the registry holds no definition under that
/// name).
pub open spec fn resolution(registry: Map<Seq<char>, AttributeSpecView>, a: AttributeSpecView) -> Result<
    AttributeView,
    ErrorView,
> {
    match a {
        AttributeSpecView::Id { id, .. } => Ok(definition(id, a)),
        AttributeSpecView::Ref { reference, .. } => if registry.contains_key(reference)
            && registry[reference] is Id {
            Ok(definition(registry[reference]->Id_id, registry[reference]))
        } else {
            Err(ErrorView::FailToResolveAttributes { ids: seq![reference], error: ref_not_found_message() })
        },
    }
}

/// Converts a semantic convention attribute to a resolved attribute: a
/// definition directly, a reference through the definition it refers to in
/// the registry (an error when the registry holds no definition under that
/// name).
pub fn resolve_attribute(registry: &SemConvCatalog, attr: &AttributeSpec) -> (r: Result<Attribute, Error>)
    ensures
        match resolution(registry.attributes(), attr@) {
            Ok(v) => r matches Ok(a) && a@ == v,
            Err(e) => r matches Err(x) && x@ == e,
        },
{
    match attr {
        AttributeSpec::Ref { reference, .. } => {
            match registry.get_attribute(reference.as_str()) {
                Some(sem_conv_attr) => match sem_conv_attr {
                    AttributeSpec::Id { id, .. } => Ok(definition_of(id.clone(), sem_conv_attr)),
                    AttributeSpec::Ref { .. } => Err(not_found_error(reference)),
                },
                None => Err(not_found_error(reference)),
            }
        },
        AttributeSpec::Id { id, .. } => Ok(definition_of(id.clone(), attr)),
    }
}

/// The error for an attribute reference missing from the registry.
fn not_found_error(reference: &String) -> (r: Error)
    ensures
        r@ == (ErrorView::FailToResolveAttributes { ids: seq![reference@], error: ref_not_found_message() }),
{
    let mut ids: Vec<String> = Vec::new();
    ids.push(reference.clone());
    let r = Error::FailToResolveAttributes {
        ids,
        error: "Attribute ref not found in the resolved registry".to_owned(),
    };
    proof {
        assert(ids@.map_values(|s: String| s@) =~= seq![reference@]);
    }
    r
}

/// Whether no attribute occurs twice in a sequence.
pub open spec fn all_distinct(s: Seq<AttributeView>) -> bool {
    forall|i: int, j: int| 0 <= i < j < s.len() ==> s[i] != s[j]
}

/// The sequence of attributes after `a` is interned: unchanged if it is
/// there, else with `a` added at the end.
pub open spec fn interned(s: Seq<AttributeView>, a: AttributeView) -> Seq<AttributeView> {
    if s.contains(a) {
        s
    } else {
        s.push(a)
    }
}

/// What resolving an attribute specification gives, from the root
/// attributes known so far: a definition gives the resolved attribute under
/// its fully qualified id; a reference gives the root attribute it refers to
/// with the reference's overrides, or nothing when that root is not known
/// (yet).
pub open spec fn resolved_spec(
    roots: Map<Seq<char>, AttributeView>,
    prefix: Seq<char>,
    a: AttributeSpecView,
) -> Option<AttributeView> {
    match a {
        AttributeSpecView::Ref { reference, .. } => if roots.contains_key(reference) {
            Some(with_overrides(roots[reference], a))
        } else {
            None
        },
        AttributeSpecView::Id { id, .. } => Some(definition(fq_id(prefix, id), a)),
    }
}

/// The root attributes after resolving an attribute specification: a
/// definition is recorded under its fully qualified id.
pub open spec fn roots_after(
    roots: Map<Seq<char>, AttributeView>,
    prefix: Seq<char>,
    a: AttributeSpecView,
) -> Map<Seq<char>, AttributeView> {
    match a {
        AttributeSpecView::Ref { .. } => roots,
        AttributeSpecView::Id { id, .. } => roots.insert(fq_id(prefix, id), definition(fq_id(prefix, id), a)),
    }
}

/// The position of an attribute in a sequence of distinct attributes.
pub open spec fn position(s: Seq<AttributeView>, v: AttributeView) -> int {
    choose|i: int| 0 <= i < s.len() && s[i] == v
}

/// In a sequence of distinct attributes, an attribute is at its position.
pub proof fn lemma_position(s: Seq<AttributeView>, v: AttributeView, x: int)
    requires
        all_distinct(s),
        0 <= x < s.len(),
        s[x] == v,
    ensures
        position(s, v) == x,
{
    let p = position(s, v);
    assert(0 <= p < s.len() && s[p] == v);
    if p < x {
        assert(s[p] != s[x]);
    } else if x < p {
        assert(s[x] != s[p]);
    }
}

/// The content of an attribute catalog.
pub struct CatalogState {
    /// The deduplicated attributes, in the order of their references.
    pub attributes: Seq<AttributeView>,
    /// The root attributes, by name.
    pub roots: Map<Seq<char>, AttributeView>,
}

/// Resolving one attribute specification against a catalog: the catalog
/// after it, and the reference obtained, if any.
pub open spec fn resolve_step(c: CatalogState, prefix: Seq<char>, a: AttributeSpecView) -> (
    CatalogState,
    Option<AttributeRef>,
) {
    let roots = roots_after(c.roots, prefix, a);
    match resolved_spec(c.roots, prefix, a) {
        Some(v) => {
            let s = interned(c.attributes, v);
            (CatalogState { attributes: s, roots }, Some(AttributeRef(position(s, v) as u32)))
        },
        None => (CatalogState { attributes: c.attributes, roots }, None),
    }
}

/// A catalog of deduplicated resolved attributes with their corresponding
/// reference.
pub struct AttributeCatalog {
    /// The deduplicated resolved attributes; the reference of each is its
    /// position.
    attribute_refs: Vec<Attribute>,
    /// The root attributes (those that do not inherit from another
    /// attribute), by name.
    root_attributes: KeyMap<Attribute>,
    /// Every attribute interned so far, in the order of the calls that
    /// interned it (one entry per call, repeats included).
    history: Ghost<Seq<AttributeView>>,
}

impl AttributeCatalog {
    /// The attributes of the catalog, in the order of their references.
    pub closed spec fn attributes(&self) -> Seq<AttributeView> {
        resolved_view(self.attribute_refs@)
    }

    /// The root attributes, by name.
    pub closed spec fn roots(&self) -> Map<Seq<char>, AttributeView> {
        self.root_attributes@.map_values(|a: Attribute| a@)
    }

    /// The content of the catalog.
    pub open spec fn state(&self) -> CatalogState {
        CatalogState { attributes: self.attributes(), roots: self.roots() }
    }

    /// The attributes interned so far, one entry per call of
    /// `attribute_ref` (directly, or through `resolve`).
    pub closed spec fn history(&self) -> Seq<AttributeView> {
        self.history@
    }

    #[verifier::type_invariant]
    closed spec fn well_formed(&self) -> bool {
        &&& all_distinct(resolved_view(self.attribute_refs@))
        &&& resolved_view(self.attribute_refs@) == interned_all(Seq::empty(), self.history@)
    }

    /// An empty catalog.
    pub fn new() -> (r: AttributeCatalog)
        ensures
            r.attributes() == Seq::<AttributeView>::empty(),
            r.roots() == Map::<Seq<char>, AttributeView>::empty(),
            r.history() == Seq::<AttributeView>::empty(),
    {
        let refs: Vec<Attribute> = Vec::new();
        proof {
            assert(resolved_view(refs@) =~= Seq::<AttributeView>::empty());
        }
        let r = AttributeCatalog {
            attribute_refs: refs,
            root_attributes: KeyMap::new(),
            history: Ghost(Seq::empty()),
        };
        proof {
            assert(r.attributes() =~= Seq::<AttributeView>::empty());
            assert(r.roots() =~= Map::<Seq<char>, AttributeView>::empty());
        }
        r
    }

    /// Returns the reference of the given attribute or creates a new
    /// reference if the attribute does not exist in the catalog.
    pub fn attribute_ref(&mut self, attr: Attribute) -> (r: AttributeRef)
        requires
            old(self).attributes().len() <= u32::MAX,
        ensures
            final(self).attributes() == interned(old(self).attributes(), attr@),
            r.0 < final(self).attributes().len(),
            final(self).attributes()[r.0 as int] == attr@,
            r.0 == position(final(self).attributes(), attr@),
            all_distinct(final(self).attributes()),
            final(self).roots() == old(self).roots(),
            final(self).history() == old(self).history().push(attr@),
            final(self).attributes() == interned_all(Seq::empty(), final(self).history()),
    {
        proof {
            use_type_invariant(&*self);
        }
        let ghost h = self.history@;
        let ghost s = self.attributes();
        let n = self.attribute_refs.len();
        let mut i: usize = 0;
        while i < n
            invariant
                i <= n,
                n == self.attribute_refs@.len(),
                n <= u32::MAX,
                s == resolved_view(self.attribute_refs@),
                s == old(self).attributes(),
                all_distinct(s),
                self.root_attributes == old(self).root_attributes,
                h == old(self).history(),
                self.history@ == h,
                s == interned_all(Seq::empty(), h),
                forall|j: int| 0 <= j < i ==> s[j] != attr@,
            decreases n - i,
        {
            if same_attribute(&self.attribute_refs[i], &attr) {
                proof {
                    assert(s.contains(attr@)) by {
                        assert(s[i as int] == attr@);
                    }
                    assert(h.push(attr@).drop_last() =~= h);
                    lemma_position(s, attr@, i as int);
                }
                self.history = Ghost(h.push(attr@));
                return AttributeRef(i as u32);
            }
            i = i + 1;
        }
        proof {
            assert(!s.contains(attr@)) by {
                if s.contains(attr@) {
                    let j = choose|j: int| 0 <= j < s.len() && s[j] == attr@;
                    assert(s[j] != attr@);
                }
            }
        }
        let next_id = n as u32;
        let mut catalog = AttributeCatalog::new();
        std::mem::swap(&mut catalog, self);
        let AttributeCatalog { attribute_refs: mut refs, root_attributes, history: _ } = catalog;
        let ghost v = attr@;
        refs.push(attr);
        proof {
            assert(resolved_view(refs@) =~= s.push(v));
            assert(h.push(v).drop_last() =~= h);
            lemma_intern(s, v);
        }
        *self = AttributeCatalog { attribute_refs: refs, root_attributes, history: Ghost(h.push(v)) };
        AttributeRef(next_id)
    }

    /// Returns the deduplicated attributes, ordered by their references.
    pub fn drain_attributes(self) -> (r: Vec<Attribute>)
        ensures
            resolved_view(r@) == self.attributes(),
            resolved_view(r@) == interned_all(Seq::empty(), self.history()),
            all_distinct(resolved_view(r@)),
    {
        proof {
            use_type_invariant(&self);
        }
        let AttributeCatalog { attribute_refs, root_attributes: _, history: _ } = self;
        attribute_refs
    }

    /// Tries to resolve the given attribute specification (reference or
    /// definition) from the catalog. Returns `None` if the specification is a
    /// reference to a root attribute not in the catalog yet.
    pub fn resolve(&mut self, prefix: &str, attr: &AttributeSpec) -> (r: Option<AttributeRef>)
        requires
            old(self).attributes().len() <= u32::MAX,
        ensures
            all_distinct(final(self).attributes()),
            final(self).roots() == roots_after(old(self).roots(), prefix@, attr@),
            final(self).attributes() == interned_all(Seq::empty(), final(self).history()),
            match resolved_spec(old(self).roots(), prefix@, attr@) {
                Some(a) => r matches Some(x) && final(self).attributes() == interned(old(self).attributes(), a)
                    && x.0 < final(self).attributes().len() && final(self).attributes()[x.0 as int] == a
                    && x.0 == position(final(self).attributes(), a)
                    && final(self).history() == old(self).history().push(a),
                None => r is None && final(self).attributes() == old(self).attributes()
                    && final(self).history() == old(self).history(),
            },
    {
        proof {
            use_type_invariant(&*self);
        }
        match attr {
            AttributeSpec::Ref {
                reference,
                brief,
                examples,
                tag,
                requirement_level,
                sampling_relevant,
                note,
                stability,
                deprecated,
                ..
            } => {
                let root_attr = self.root_attributes.get(reference.as_str());
                match root_attr {
                    Some(root_attr) => {
                        // A fully resolved attribute from the reference: the
                        // root attribute with the values that the reference
                        // sets.
                        let resolved_attr = Attribute {
                            name: reference.clone(),
                            attr_type: root_attr.attr_type.clone(),
                            brief: match brief {
                                Some(brief) => brief.clone(),
                                None => root_attr.brief.clone(),
                            },
                            examples: match examples {
                                Some(_) => semconv_to_resolved_examples(examples),
                                None => clone_opt_example(&root_attr.examples),
                            },
                            tag: match tag {
                                Some(_) => clone_opt_text(tag),
                                None => clone_opt_text(&root_attr.tag),
                            },
                            requirement_level: match requirement_level {
                                Some(requirement_level) => Some(semconv_to_resolved_req_level(requirement_level)),
                                None => clone_opt_level(&root_attr.requirement_level),
                            },
                            sampling_relevant: match sampling_relevant {
                                Some(_) => *sampling_relevant,
                                None => root_attr.sampling_relevant,
                            },
                            note: match note {
                                Some(_) => clone_opt_text(note),
                                None => clone_opt_text(&root_attr.note),
                            },
                            stability: match stability {
                                Some(_) => resolve_stability(stability),
                                None => root_attr.stability,
                            },
                            deprecated: match deprecated {
                                Some(_) => clone_opt_text(deprecated),
                                None => clone_opt_text(&root_attr.deprecated),
                            },
                            tags: clone_opt_tags(&root_attr.tags),
                            value: clone_opt_value(&root_attr.value),
                        };
                        Some(self.attribute_ref(resolved_attr))
                    },
                    None => None,
                }
            },
            AttributeSpec::Id { id, .. } => {
                let root_attr_id: String = if prefix.unicode_len() == 0 {
                    id.clone()
                } else {
                    let mut f = prefix.to_owned();
                    f.append(".");
                    f.append(id.as_str());
                    f
                };
                assert(root_attr_id@ == fq_id(prefix@, id@));
                // A fully resolved attribute from the definition; an attribute
                // already in the catalog keeps its reference.
                let attr = definition_of(root_attr_id.clone(), attr);
                let root = attr.clone();
                let mut roots: KeyMap<Attribute> = KeyMap::new();
                std::mem::swap(&mut roots, &mut self.root_attributes);
                let ghost before = roots@;
                let _ = roots.insert(root_attr_id, root);
                proof {
                    assert(roots@.map_values(|a: Attribute| a@) =~= before.map_values(|a: Attribute| a@).insert(
                        fq_id(prefix@, id@),
                        attr@,
                    ));
                }
                self.root_attributes = roots;
                Some(self.attribute_ref(attr))
            },
        }
    }
}

impl Default for AttributeCatalog {
    fn default() -> (r: Self)
        ensures
            r.attributes() == Seq::<AttributeView>::empty(),
            r.roots() == Map::<Seq<char>, AttributeView>::empty(),
            r.history() == Seq::<AttributeView>::empty(),
    {
        AttributeCatalog::new()
    }
}

/// Interning an attribute keeps the attributes distinct and each at its
/// place (so every reference handed out stays valid), finds the attribute at
/// its reference, and interning it again changes nothing: an attribute
/// already in the catalog keeps its reference, a new one gets the next.
pub proof fn lemma_intern(s: Seq<AttributeView>, a: AttributeView)
    requires
        all_distinct(s),
    ensures
        all_distinct(interned(s, a)),
        s.is_prefix_of(interned(s, a)),
        interned(s, a).contains(a),
        0 <= position(interned(s, a), a) < interned(s, a).len(),
        interned(s, a)[position(interned(s, a), a)] == a,
        interned(interned(s, a), a) == interned(s, a),
        s.contains(a) ==> position(interned(s, a), a) == position(s, a),
        !s.contains(a) ==> position(interned(s, a), a) == s.len(),
{
    let t = interned(s, a);
    if s.contains(a) {
        let x = choose|x: int| 0 <= x < s.len() && s[x] == a;
        lemma_position(s, a, x);
        assert(s.is_prefix_of(t)) by {
            assert(s.subrange(0, s.len() as int) =~= s);
        }
    } else {
        assert(t[s.len() as int] == a);
        assert(all_distinct(t)) by {
            assert forall|i: int, j: int| 0 <= i < j < t.len() implies t[i] != t[j] by {
                if j == s.len() {
                    assert(s.contains(s[i]));
                }
            }
        }
        lemma_position(t, a, s.len() as int);
        assert(t.contains(a));
        assert(s.is_prefix_of(t)) by {
            assert(t.subrange(0, s.len() as int) =~= s);
        }
    }
    let p = position(t, a);
    assert(0 <= p < t.len() && t[p] == a) by {
        let x = choose|x: int| 0 <= x < t.len() && t[x] == a;
        lemma_position(t, a, x);
    }
}

/// The attributes of a catalog after the attributes `xs` are interned in
/// turn (directly by `attribute_ref`, or as what `resolve` resolves).
pub open spec fn interned_all(s: Seq<AttributeView>, xs: Seq<AttributeView>) -> Seq<AttributeView>
    decreases xs.len(),
{
    if xs.len() == 0 {
        s
    } else {
        interned(interned_all(s, xs.drop_last()), xs.last())
    }
}

/// Over any sequence of attributes interned in a catalog: the catalog holds
/// each attribute once, keeps the attributes it held in front, holds every
/// attribute interned and nothing else new, and the reference handed out
/// for each one (its position when it was interned) still names it at the
/// end, so draining gives every attribute at its reference.
pub proof fn lemma_interned_all(s: Seq<AttributeView>, xs: Seq<AttributeView>)
    requires
        all_distinct(s),
    ensures
        all_distinct(interned_all(s, xs)),
        s.len() <= interned_all(s, xs).len(),
        forall|i: int| 0 <= i < s.len() ==> interned_all(s, xs)[i] == s[i],
        forall|k: int| 0 <= k < xs.len() ==> interned_all(s, xs).contains(#[trigger] xs[k]),
        forall|j: int| s.len() <= j < interned_all(s, xs).len() ==> xs.contains(#[trigger] interned_all(s, xs)[j]),
        forall|k: int|
            0 <= k < xs.len() ==> {
                let tk = interned_all(s, #[trigger] xs.subrange(0, k + 1));
                &&& 0 <= position(tk, xs[k]) < tk.len() <= interned_all(s, xs).len()
                &&& interned_all(s, xs)[position(tk, xs[k])] == xs[k]
            },
    decreases xs.len(),
{
    let t = interned_all(s, xs);
    if xs.len() == 0 {
    } else {
        let pre = xs.drop_last();
        let a = xs.last();
        lemma_interned_all(s, pre);
        let t1 = interned_all(s, pre);
        lemma_intern(t1, a);
        assert(t1.is_prefix_of(t));
        assert(forall|i: int| 0 <= i < t1.len() ==> t[i] == t1[i]) by {
            assert(t.subrange(0, t1.len() as int) == t1);
            assert forall|i: int| 0 <= i < t1.len() implies t[i] == t1[i] by {
                assert(t.subrange(0, t1.len() as int)[i] == t[i]);
            }
        }
        assert forall|k: int| 0 <= k < xs.len() implies t.contains(#[trigger] xs[k]) by {
            if k < xs.len() - 1 {
                assert(pre[k] == xs[k]);
                assert(t1.contains(pre[k]));
                let x = choose|x: int| 0 <= x < t1.len() && t1[x] == pre[k];
                assert(t[x] == xs[k]);
            } else {
                assert(xs[k] == a);
            }
        }
        assert forall|j: int| s.len() <= j < t.len() implies xs.contains(#[trigger] t[j]) by {
            if j < t1.len() {
                assert(pre.contains(t1[j]));
                let x = choose|x: int| 0 <= x < pre.len() && pre[x] == t1[j];
                assert(xs[x] == pre[x]);
            } else {
                assert(t[j] == a);
                assert(xs[xs.len() - 1] == a);
            }
        }
        assert forall|k: int| 0 <= k < xs.len() implies {
            let tk = interned_all(s, #[trigger] xs.subrange(0, k + 1));
            &&& 0 <= position(tk, xs[k]) < tk.len() <= t.len()
            &&& t[position(tk, xs[k])] == xs[k]
        } by {
            if k < xs.len() - 1 {
                assert(pre.subrange(0, k + 1) == xs.subrange(0, k + 1));
                assert(pre[k] == xs[k]);
                let tk = interned_all(s, pre.subrange(0, k + 1));
                assert(0 <= position(tk, pre[k]) < tk.len() <= t1.len());
            } else {
                assert(xs.subrange(0, k + 1) == xs);
                assert(xs.drop_last() == pre);
            }
        }
    }
}

/// Interning the attributes `xs` and then `ys` is interning `xs + ys`.
proof fn lemma_interned_all_concat(s: Seq<AttributeView>, xs: Seq<AttributeView>, ys: Seq<AttributeView>)
    ensures
        interned_all(interned_all(s, xs), ys) == interned_all(s, xs + ys),
    decreases ys.len(),
{
    if ys.len() == 0 {
        assert(xs + ys =~= xs);
    } else {
        lemma_interned_all_concat(s, xs, ys.drop_last());
        assert((xs + ys).drop_last() =~= xs + ys.drop_last());
        assert((xs + ys).last() == ys.last());
    }
}

/// Over any history of calls on a catalog that started empty (`new` or
/// `default`), where `h` lists the attribute each call of `attribute_ref`
/// interned (directly, or as what `resolve` resolved): the catalog holds
/// each distinct attribute of the history exactly once, so the references
/// in use are exactly `0..n`, one per distinct attribute, where `n` is the
/// number of distinct attributes in the history; and the attributes held
/// after each call stay at their references through every later call, so
/// the attribute that the `k`-th call handed out a reference for is found
/// at that reference among the drained attributes.
pub proof fn lemma_catalog_history(h: Seq<AttributeView>)
    ensures
        all_distinct(interned_all(Seq::empty(), h)),
        interned_all(Seq::empty(), h).to_set() == h.to_set(),
        interned_all(Seq::empty(), h).len() == h.to_set().len(),
        forall|k: int|
            0 <= k < h.len() ==> {
                let tk = interned_all(Seq::empty(), #[trigger] h.subrange(0, k + 1));
                &&& 0 <= position(tk, h[k]) < tk.len() <= interned_all(Seq::empty(), h).len()
                &&& tk[position(tk, h[k])] == h[k]
                &&& forall|i: int| 0 <= i < tk.len() ==> interned_all(Seq::empty(), h)[i] == tk[i]
                &&& interned_all(Seq::empty(), h)[position(tk, h[k])] == h[k]
            },
{
    let e = Seq::<AttributeView>::empty();
    let t = interned_all(e, h);
    lemma_interned_all(e, h);
    assert(t.to_set() =~= h.to_set()) by {
        assert forall|a: AttributeView| t.contains(a) implies h.contains(a) by {
            let j = choose|j: int| 0 <= j < t.len() && t[j] == a;
            assert(h.contains(t[j]));
        }
        assert forall|a: AttributeView| h.contains(a) implies t.contains(a) by {
            let k = choose|k: int| 0 <= k < h.len() && h[k] == a;
            assert(t.contains(h[k]));
        }
    }
    assert(t.no_duplicates()) by {
        assert forall|i: int, j: int| 0 <= i < t.len() && 0 <= j < t.len() && i != j implies t[i] != t[j] by {
            if i < j {
                assert(t[i] != t[j]);
            } else {
                assert(t[j] != t[i]);
            }
        }
    }
    t.unique_seq_to_set();
    assert forall|k: int| 0 <= k < h.len() implies {
        let tk = interned_all(e, #[trigger] h.subrange(0, k + 1));
        &&& 0 <= position(tk, h[k]) < tk.len() <= t.len()
        &&& tk[position(tk, h[k])] == h[k]
        &&& forall|i: int| 0 <= i < tk.len() ==> t[i] == tk[i]
        &&& t[position(tk, h[k])] == h[k]
    } by {
        let pre = h.subrange(0, k + 1);
        let rest = h.subrange(k + 1, h.len() as int);
        let tk = interned_all(e, pre);
        assert(pre + rest =~= h);
        lemma_interned_all_concat(e, pre, rest);
        lemma_interned_all(e, pre);
        lemma_interned_all(tk, rest);
        assert(pre.drop_last() =~= h.subrange(0, k));
        assert(pre.last() == h[k]);
        lemma_interned_all(e, h.subrange(0, k));
        lemma_intern(interned_all(e, h.subrange(0, k)), h[k]);
    }
}

/// Resolving a reference whose root attribute is known gives an attribute
/// under the reference's name, with the root's type, tags and value; every
/// other field is the reference's own where the reference sets it (the
/// requirement level, brief, examples, tag, sampling relevance, note,
/// stability and deprecation) and the root's where it does not. An override
/// set on a reference is never dropped.
pub proof fn lemma_reference_overrides(
    roots: Map<Seq<char>, AttributeView>,
    prefix: Seq<char>,
    a: AttributeSpecView,
)
    requires
        a is Ref,
        roots.contains_key(a->Ref_reference),
    ensures
        match (a, resolved_spec(roots, prefix, a)) {
            (
                AttributeSpecView::Ref {
                    reference,
                    brief,
                    examples,
                    tag,
                    requirement_level,
                    sampling_relevant,
                    note,
                    stability,
                    deprecated,
                    ..
                },
                Some(v),
            ) => {
                let root = roots[reference];
                &&& v.name == reference
                &&& v.attr_type == root.attr_type
                &&& v.tags == root.tags
                &&& v.value == root.value
                &&& (brief matches Some(b) ==> v.brief == b)
                &&& (brief is None ==> v.brief == root.brief)
                &&& (examples is Some ==> v.examples == resolved_examples(examples))
                &&& (examples is None ==> v.examples == root.examples)
                &&& (tag is Some ==> v.tag == tag)
                &&& (tag is None ==> v.tag == root.tag)
                &&& (requirement_level matches Some(l) ==> v.requirement_level == Some(resolved_level(l)))
                &&& (requirement_level is None ==> v.requirement_level == root.requirement_level)
                &&& (sampling_relevant is Some ==> v.sampling_relevant == sampling_relevant)
                &&& (sampling_relevant is None ==> v.sampling_relevant == root.sampling_relevant)
                &&& (note is Some ==> v.note == note)
                &&& (note is None ==> v.note == root.note)
                &&& (stability is Some ==> v.stability == resolved_stability(stability))
                &&& (stability is None ==> v.stability == root.stability)
                &&& (deprecated is Some ==> v.deprecated == deprecated)
                &&& (deprecated is None ==> v.deprecated == root.deprecated)
            },
            _ => false,
        },
{
}

/// Resolving a definition gives, under its fully qualified id (the prefix,
/// a dot and the id; the id alone without a prefix), an attribute with the
/// definition's fields: type, examples, requirement level and stability
/// resolved, the rest as they are, and no tags or value; the definition
/// becomes the root attribute of that name, and no other root changes.
pub proof fn lemma_definition_fields(roots: Map<Seq<char>, AttributeView>, prefix: Seq<char>, a: AttributeSpecView)
    requires
        a is Id,
    ensures
        match (a, resolved_spec(roots, prefix, a)) {
            (
                AttributeSpecView::Id {
                    id,
                    attr_type,
                    brief,
                    examples,
                    tag,
                    requirement_level,
                    sampling_relevant,
                    note,
                    stability,
                    deprecated,
                    ..
                },
                Some(v),
            ) => {
                let name = if prefix.len() == 0 {
                    id
                } else {
                    prefix + seq!['.'] + id
                };
                &&& v.name == name
                &&& v.attr_type == resolved_type(attr_type)
                &&& v.brief == brief
                &&& v.examples == resolved_examples(examples)
                &&& v.tag == tag
                &&& (requirement_level matches Some(l) ==> v.requirement_level == Some(resolved_level(l)))
                &&& (requirement_level is None ==> v.requirement_level is None)
                &&& v.sampling_relevant == sampling_relevant
                &&& v.note == note
                &&& v.stability == resolved_stability(stability)
                &&& v.deprecated == deprecated
                &&& v.tags is None
                &&& v.value is None
                &&& roots_after(roots, prefix, a).contains_key(name)
                &&& roots_after(roots, prefix, a)[name] == v
                &&& forall|k: Seq<char>| k != name ==> #[trigger] roots_after(roots, prefix, a).contains_key(k)
                    == roots.contains_key(k) && (roots.contains_key(k) ==> roots_after(roots, prefix, a)[k]
                    == roots[k])
            },
            _ => false,
        },
{
    reveal_strlit(".");
    assert("."@ =~= seq!['.']);
}

/// A reference that changes anything of its root attribute gets a reference
/// of its own: in a catalog that holds the root, resolving the reference
/// hands out another reference than the root's, and the root stays at its
/// reference.
pub proof fn lemma_override_gets_own_reference(c: CatalogState, prefix: Seq<char>, a: AttributeSpecView)
    requires
        all_distinct(c.attributes),
        c.attributes.len() < u32::MAX,
        a is Ref,
        c.roots.contains_key(a->Ref_reference),
        c.attributes.contains(c.roots[a->Ref_reference]),
        resolved_spec(c.roots, prefix, a) != Some(c.roots[a->Ref_reference]),
    ensures
        ({
            let root = c.roots[a->Ref_reference];
            let (c2, o) = resolve_step(c, prefix, a);
            &&& o matches Some(x) && x != AttributeRef(position(c.attributes, root) as u32)
            &&& c2.attributes[position(c.attributes, root)] == root
            &&& c2.attributes[(o->0).0 as int] != root
        }),
{
    let root = c.roots[a->Ref_reference];
    let v = resolved_spec(c.roots, prefix, a)->0;
    let s = interned(c.attributes, v);
    lemma_intern(c.attributes, v);
    let x = choose|x: int| 0 <= x < c.attributes.len() && c.attributes[x] == root;
    lemma_position(c.attributes, root, x);
    let q = position(s, v);
    assert(s.subrange(0, c.attributes.len() as int) == c.attributes);
    assert(s[x] == s.subrange(0, c.attributes.len() as int)[x]);
    assert(s[x] == root);
    assert(q != x);
    assert(s.len() <= c.attributes.len() + 1);
}

/// In a catalog that holds definitions only, each under its id, a
/// reference resolves exactly when the catalog has an attribute under its
/// name, to the definition stored there.
pub proof fn lemma_reference_resolution(registry: Map<Seq<char>, AttributeSpecView>, a: AttributeSpecView)
    requires
        definitions_keyed(registry),
        a is Ref,
    ensures
        resolution(registry, a) is Ok <==> registry.contains_key(a->Ref_reference),
        registry.contains_key(a->Ref_reference) ==> resolution(registry, a) == Ok::<AttributeView, ErrorView>(
            definition(a->Ref_reference, registry[a->Ref_reference]),
        ),
{
}

} // verus!
