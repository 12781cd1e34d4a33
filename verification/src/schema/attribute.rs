//! Definition of an attribute in the context of a telemetry schema.
use vstd::prelude::*;
use crate::schema::{Error, ErrorView};
use crate::semconv::attribute::{
    Attribute as AttributeSpec, AttributeType, AttributeTypeView, AttributeView as AttributeSpecView,
    Examples, ExamplesView, RequirementLevel, RequirementLevelView, Value, ValueView, clone_opt_examples,
    clone_opt_level, clone_opt_text, clone_opt_value, opt_examples, opt_level, opt_text, opt_value,
};
use crate::semconv::stability::Stability;
use crate::tags::Tags;

verus! {

/// An attribute specification in a telemetry schema.
#[allow(inconsistent_fields)]
pub enum Attribute {
    /// Reference to another attribute.
    Ref {
        /// The reference to the attribute.
        reference: String,
        /// A brief description of the attribute.
        brief: Option<String>,
        /// Sequence of example values for the attribute.
        examples: Option<Examples>,
        /// Associates a tag to the attribute.
        tag: Option<String>,
        /// Specifies if the attribute is mandatory.
        requirement_level: Option<RequirementLevel>,
        /// Specifies if the attribute is (especially) relevant for sampling.
        sampling_relevant: Option<bool>,
        /// A more elaborate description of the attribute.
        note: Option<String>,
        /// Specifies the stability of the attribute.
        stability: Option<Stability>,
        /// Specifies if the attribute is deprecated.
        deprecated: Option<String>,
        /// A set of tags for the attribute.
        tags: Option<Tags>,
        /// The value of the attribute.
        value: Option<Value>,
    },
    /// Reference to an attribute group.
    AttributeGroupRef {
        /// The reference to the attribute group.
        attribute_group_ref: String,
        /// A set of tags for the attribute group.
        tags: Option<Tags>,
    },
    /// Attribute definition.
    Id {
        /// String that uniquely identifies the attribute.
        id: String,
        /// Either a string literal denoting the type as a primitive or an
        /// array type, a template type or an enum definition.
        attr_type: AttributeType,
        /// A brief description of the attribute.
        brief: String,
        /// Sequence of example values for the attribute.
        examples: Option<Examples>,
        /// Associates a tag to the attribute.
        tag: Option<String>,
        /// Specifies if the attribute is mandatory.
        requirement_level: Option<RequirementLevel>,
        /// Specifies if the attribute is (especially) relevant for sampling.
        sampling_relevant: Option<bool>,
        /// A more elaborate description of the attribute.
        note: Option<String>,
        /// Specifies the stability of the attribute.
        stability: Option<Stability>,
        /// Specifies if the attribute is deprecated.
        deprecated: Option<String>,
        /// A set of tags for the attribute.
        tags: Option<Tags>,
        /// The value of the attribute.
        value: Option<Value>,
    },
}

/// The content of an attribute specification in a telemetry schema.
#[allow(inconsistent_fields)]
pub enum AttributeView {
    /// Reference to another attribute.
    Ref {
        reference: Seq<char>,
        brief: Option<Seq<char>>,
        examples: Option<ExamplesView>,
        tag: Option<Seq<char>>,
        requirement_level: Option<RequirementLevelView>,
        sampling_relevant: Option<bool>,
        note: Option<Seq<char>>,
        stability: Option<Stability>,
        deprecated: Option<Seq<char>>,
        tags: Option<Map<Seq<char>, Seq<char>>>,
        value: Option<ValueView>,
    },
    /// Reference to an attribute group.
    AttributeGroupRef { attribute_group_ref: Seq<char>, tags: Option<Map<Seq<char>, Seq<char>>> },
    /// Attribute definition.
    Id {
        id: Seq<char>,
        attr_type: AttributeTypeView,
        brief: Seq<char>,
        examples: Option<ExamplesView>,
        tag: Option<Seq<char>>,
        requirement_level: Option<RequirementLevelView>,
        sampling_relevant: Option<bool>,
        note: Option<Seq<char>>,
        stability: Option<Stability>,
        deprecated: Option<Seq<char>>,
        tags: Option<Map<Seq<char>, Seq<char>>>,
        value: Option<ValueView>,
    },
}

/// The content of optional tags.
pub open spec fn opt_tags(o: Option<Tags>) -> Option<Map<Seq<char>, Seq<char>>> {
    match o {
        Some(t) => Some(t@),
        None => None,
    }
}

/// A copy of optional tags.
pub fn clone_opt_tags(o: &Option<Tags>) -> (r: Option<Tags>)
    ensures
        opt_tags(r) == opt_tags(*o),
{
    match o {
        Some(t) => Some(t.clone()),
        None => None,
    }
}

impl View for Attribute {
    type V = AttributeView;

    open spec fn view(&self) -> AttributeView {
        match self {
            Attribute::Ref {
                reference,
                brief,
                examples,
                tag,
                requirement_level,
                sampling_relevant,
                note,
                stability,
                deprecated,
                tags,
                value,
            } => AttributeView::Ref {
                reference: reference@,
                brief: opt_text(*brief),
                examples: opt_examples(*examples),
                tag: opt_text(*tag),
                requirement_level: opt_level(*requirement_level),
                sampling_relevant: *sampling_relevant,
                note: opt_text(*note),
                stability: *stability,
                deprecated: opt_text(*deprecated),
                tags: opt_tags(*tags),
                value: opt_value(*value),
            },
            Attribute::AttributeGroupRef { attribute_group_ref, tags } => AttributeView::AttributeGroupRef {
                attribute_group_ref: attribute_group_ref@,
                tags: opt_tags(*tags),
            },
            Attribute::Id {
                id,
                attr_type,
                brief,
                examples,
                tag,
                requirement_level,
                sampling_relevant,
                note,
                stability,
                deprecated,
                tags,
                value,
            } => AttributeView::Id {
                id: id@,
                attr_type: attr_type@,
                brief: brief@,
                examples: opt_examples(*examples),
                tag: opt_text(*tag),
                requirement_level: opt_level(*requirement_level),
                sampling_relevant: *sampling_relevant,
                note: opt_text(*note),
                stability: *stability,
                deprecated: opt_text(*deprecated),
                tags: opt_tags(*tags),
                value: opt_value(*value),
            },
        }
    }
}

impl Clone for Attribute {
    fn clone(&self) -> (r: Self)
        ensures
            r@ == self@,
    {
        match self {
            Attribute::Ref {
                reference,
                brief,
                examples,
                tag,
                requirement_level,
                sampling_relevant,
                note,
                stability,
                deprecated,
                tags,
                value,
            } => Attribute::Ref {
                reference: reference.clone(),
                brief: clone_opt_text(brief),
                examples: clone_opt_examples(examples),
                tag: clone_opt_text(tag),
                requirement_level: clone_opt_level(requirement_level),
                sampling_relevant: *sampling_relevant,
                note: clone_opt_text(note),
                stability: *stability,
                deprecated: clone_opt_text(deprecated),
                tags: clone_opt_tags(tags),
                value: clone_opt_value(value),
            },
            Attribute::AttributeGroupRef { attribute_group_ref, tags } => Attribute::AttributeGroupRef {
                attribute_group_ref: attribute_group_ref.clone(),
                tags: clone_opt_tags(tags),
            },
            Attribute::Id {
                id,
                attr_type,
                brief,
                examples,
                tag,
                requirement_level,
                sampling_relevant,
                note,
                stability,
                deprecated,
                tags,
                value,
            } => Attribute::Id {
                id: id.clone(),
                attr_type: attr_type.clone(),
                brief: brief.clone(),
                examples: clone_opt_examples(examples),
                tag: clone_opt_text(tag),
                requirement_level: clone_opt_level(requirement_level),
                sampling_relevant: *sampling_relevant,
                note: clone_opt_text(note),
                stability: *stability,
                deprecated: clone_opt_text(deprecated),
                tags: clone_opt_tags(tags),
                value: clone_opt_value(value),
            },
        }
    }
}

/// The contents of a sequence of schema attributes.
pub open spec fn schema_attrs_view(s: Seq<Attribute>) -> Seq<AttributeView> {
    s.map_values(|a: Attribute| a@)
}

/// A copy of a sequence of schema attributes.
pub fn clone_schema_attributes(v: &[Attribute]) -> (r: Vec<Attribute>)
    ensures
        schema_attrs_view(r@) == schema_attrs_view(v@),
{
    let mut out: Vec<Attribute> = Vec::new();
    let mut i: usize = 0;
    while i < v.len()
        invariant
            i <= v@.len(),
            out@.len() == i,
            forall|j: int| 0 <= j < i ==> (#[trigger] out@[j])@ == v@[j]@,
        decreases v@.len() - i,
    {
        out.push(v[i].clone());
        i = i + 1;
    }
    proof {
        assert(schema_attrs_view(out@) =~= schema_attrs_view(v@));
    }
    out
}

/// The schema attribute of a semantic convention attribute: the same
/// fields, with no tags and no value.
pub open spec fn from_semconv_view(a: AttributeSpecView) -> AttributeView {
    match a {
        AttributeSpecView::Ref {
            reference,
            brief,
            examples,
            tag,
            requirement_level,
            sampling_relevant,
            note,
            stability,
            deprecated,
            ..
        } => AttributeView::Ref {
            reference,
            brief,
            examples,
            tag,
            requirement_level,
            sampling_relevant,
            note,
            stability,
            deprecated,
            tags: None,
            value: None,
        },
        AttributeSpecView::Id {
            id,
            attr_type,
            brief,
            examples,
            tag,
            requirement_level,
            sampling_relevant,
            note,
            stability,
            deprecated,
            ..
        } => AttributeView::Id {
            id,
            attr_type,
            brief,
            examples,
            tag,
            requirement_level,
            sampling_relevant,
            note,
            stability,
            deprecated,
            tags: None,
            value: None,
        },
    }
}

impl Attribute {
    /// Converts a semantic convention attribute to a schema attribute.
    pub fn from_semconv(attr: &AttributeSpec) -> (r: Attribute)
        ensures
            r@ == from_semconv_view(attr@),
    {
        match attr {
            AttributeSpec::Ref {
                reference,
                brief,
                examples,
                tag,
                requirement_level,
                sampling_relevant,
                note,
                stability,
                deprecated,
                ..
            } => Attribute::Ref {
                reference: reference.clone(),
                brief: clone_opt_text(brief),
                examples: clone_opt_examples(examples),
                tag: clone_opt_text(tag),
                requirement_level: clone_opt_level(requirement_level),
                sampling_relevant: *sampling_relevant,
                note: clone_opt_text(note),
                stability: *stability,
                deprecated: clone_opt_text(deprecated),
                tags: None,
                value: None,
            },
            AttributeSpec::Id {
                id,
                attr_type,
                brief,
                examples,
                tag,
                requirement_level,
                sampling_relevant,
                note,
                stability,
                deprecated,
                ..
            } => Attribute::Id {
                id: id.clone(),
                attr_type: attr_type.clone(),
                brief: brief.clone(),
                examples: clone_opt_examples(examples),
                tag: clone_opt_text(tag),
                requirement_level: clone_opt_level(requirement_level),
                sampling_relevant: *sampling_relevant,
                note: clone_opt_text(note),
                stability: *stability,
                deprecated: clone_opt_text(deprecated),
                tags: None,
                value: None,
            },
        }
    }
}

/// Converts a sequence of semantic convention attributes to schema
/// attributes.
pub fn from_semconv_attributes(attrs: &[AttributeSpec]) -> (r: Vec<Attribute>)
    ensures
        schema_attrs_view(r@) == attrs@.map_values(|a: AttributeSpec| from_semconv_view(a@)),
{
    let mut out: Vec<Attribute> = Vec::new();
    let mut i: usize = 0;
    while i < attrs.len()
        invariant
            i <= attrs@.len(),
            out@.len() == i,
            forall|j: int| 0 <= j < i ==> (#[trigger] out@[j])@ == from_semconv_view(attrs@[j]@),
        decreases attrs@.len() - i,
    {
        out.push(Attribute::from_semconv(&attrs[i]));
        i = i + 1;
    }
    proof {
        assert(schema_attrs_view(out@) =~= attrs@.map_values(|a: AttributeSpec| from_semconv_view(a@)));
    }
    out
}

/// An attribute with its tags replaced.
pub open spec fn with_tags(a: AttributeView, tags: Option<Map<Seq<char>, Seq<char>>>) -> AttributeView {
    match a {
        AttributeView::Ref {
            reference,
            brief,
            examples,
            tag,
            requirement_level,
            sampling_relevant,
            note,
            stability,
            deprecated,
            value,
            ..
        } => AttributeView::Ref {
            reference,
            brief,
            examples,
            tag,
            requirement_level,
            sampling_relevant,
            note,
            stability,
            deprecated,
            tags,
            value,
        },
        AttributeView::AttributeGroupRef { attribute_group_ref, .. } => AttributeView::AttributeGroupRef {
            attribute_group_ref,
            tags,
        },
        AttributeView::Id {
            id,
            attr_type,
            brief,
            examples,
            tag,
            requirement_level,
            sampling_relevant,
            note,
            stability,
            deprecated,
            value,
            ..
        } => AttributeView::Id {
            id,
            attr_type,
            brief,
            examples,
            tag,
            requirement_level,
            sampling_relevant,
            note,
            stability,
            deprecated,
            tags,
            value,
        },
    }
}

impl Attribute {
    /// Replaces the tags of the attribute with a copy of `tags`.
    pub fn set_tags(&mut self, tags: &Option<Tags>)
        ensures
            final(self)@ == with_tags(old(self)@, opt_tags(*tags)),
    {
        let t = clone_opt_tags(tags);
        match self {
            Attribute::Ref { tags: own, .. } => {
                *own = t;
            },
            Attribute::AttributeGroupRef { tags: own, .. } => {
                *own = t;
            },
            Attribute::Id { tags: own, .. } => {
                *own = t;
            },
        }
    }
}

/// The error text when an attribute reference has no definition in the
/// semantic convention catalog.
pub open spec fn no_definition_message() -> Seq<char> {
    "Attribute reference not found in the semantic convention catalog"@
}

/// What resolving a schema attribute against the definition it refers to
/// gives: for a reference, the definition (a semantic convention `Id`) as a
/// schema definition, with each field that the reference sets taking the
/// place of the definition's, and the reference's tags; an error when there
/// is no such definition. Other attributes are kept as they are.
pub open spec fn resolved_from(a: AttributeView, def: Option<AttributeSpecView>) -> Result<
    AttributeView,
    ErrorView,
> {
    match a {
        AttributeView::Ref {
            reference,
            brief,
            examples,
            tag,
            requirement_level,
            sampling_relevant,
            note,
            stability,
            deprecated,
            tags,
            value,
        } => match def {
            Some(
                AttributeSpecView::Id {
                    id,
                    attr_type,
                    brief: d_brief,
                    examples: d_examples,
                    tag: d_tag,
                    requirement_level: d_level,
                    sampling_relevant: d_sampling,
                    note: d_note,
                    stability: d_stability,
                    deprecated: d_deprecated,
                    value: d_value,
                },
            ) => Ok(
                AttributeView::Id {
                    id,
                    attr_type,
                    brief: match brief {
                        Some(b) => b,
                        None => d_brief,
                    },
                    examples: if examples is Some {
                        examples
                    } else {
                        d_examples
                    },
                    tag: if tag is Some {
                        tag
                    } else {
                        d_tag
                    },
                    requirement_level: if requirement_level is Some {
                        requirement_level
                    } else {
                        d_level
                    },
                    sampling_relevant: if sampling_relevant is Some {
                        sampling_relevant
                    } else {
                        d_sampling
                    },
                    note: if note is Some {
                        note
                    } else {
                        d_note
                    },
                    stability: if stability is Some {
                        stability
                    } else {
                        d_stability
                    },
                    deprecated: if deprecated is Some {
                        deprecated
                    } else {
                        d_deprecated
                    },
                    tags,
                    value: if value is Some {
                        value
                    } else {
                        d_value
                    },
                },
            ),
            _ => Err(ErrorView::InvalidAttribute { id: reference, error: no_definition_message() }),
        },
        _ => Ok(a),
    }
}

/// Whether `r` is what a schema reference `a` to the semantic convention
/// definition `d` stands for: a definition under the definition's id and
/// type, with the reference's tags; every other field is the reference's own
/// where the reference sets it (brief, examples, tag, requirement level,
/// sampling relevance, note, stability, deprecation, value) and the
/// definition's where it does not.
pub open spec fn overrides_definition(a: AttributeView, d: AttributeSpecView, r: AttributeView) -> bool {
    match (a, d, r) {
        (
            AttributeView::Ref {
                brief,
                examples,
                tag,
                requirement_level,
                sampling_relevant,
                note,
                stability,
                deprecated,
                tags,
                value,
                ..
            },
            AttributeSpecView::Id {
                id: d_id,
                attr_type: d_type,
                brief: d_brief,
                examples: d_examples,
                tag: d_tag,
                requirement_level: d_level,
                sampling_relevant: d_sampling,
                note: d_note,
                stability: d_stability,
                deprecated: d_deprecated,
                value: d_value,
            },
            AttributeView::Id {
                    id: r_id,
                    attr_type: r_type,
                    brief: r_brief,
                    examples: r_examples,
                    tag: r_tag,
                    requirement_level: r_level,
                    sampling_relevant: r_sampling,
                    note: r_note,
                    stability: r_stability,
                    deprecated: r_deprecated,
                    tags: r_tags,
                    value: r_value,
                },
        ) => {
            &&& r_id == d_id
            &&& r_type == d_type
            &&& r_tags == tags
            &&& (brief matches Some(b) ==> r_brief == b)
            &&& (brief is None ==> r_brief == d_brief)
            &&& (examples is Some ==> r_examples == examples)
            &&& (examples is None ==> r_examples == d_examples)
            &&& (tag is Some ==> r_tag == tag)
            &&& (tag is None ==> r_tag == d_tag)
            &&& (requirement_level is Some ==> r_level == requirement_level)
            &&& (requirement_level is None ==> r_level == d_level)
            &&& (sampling_relevant is Some ==> r_sampling == sampling_relevant)
            &&& (sampling_relevant is None ==> r_sampling == d_sampling)
            &&& (note is Some ==> r_note == note)
            &&& (note is None ==> r_note == d_note)
            &&& (stability is Some ==> r_stability == stability)
            &&& (stability is None ==> r_stability == d_stability)
            &&& (deprecated is Some ==> r_deprecated == deprecated)
            &&& (deprecated is None ==> r_deprecated == d_deprecated)
            &&& (value is Some ==> r_value == value)
            &&& (value is None ==> r_value == d_value)
        },
        _ => false,
    }
}

/// Resolving a schema reference against the semantic convention definition
/// it refers to succeeds and gives what the reference stands for: the
/// schema's overrides win over the definition, field by field.
pub proof fn lemma_reference_overrides_definition(a: AttributeView, d: AttributeSpecView)
    requires
        a is Ref,
        d is Id,
    ensures
        resolved_from(a, Some(d)) is Ok,
        overrides_definition(a, d, resolved_from(a, Some(d))->Ok_0),
{
}

/// A schema reference with no semantic convention definition to resolve
/// against is an invalid attribute, reported by the name it refers to;
/// attributes other than references are kept as they are.
pub proof fn lemma_resolved_from_other(a: AttributeView, d: Option<AttributeSpecView>)
    ensures
        a is Ref && !(d matches Some(x) && x is Id) ==> resolved_from(a, d) == Err::<AttributeView, ErrorView>(
            ErrorView::InvalidAttribute { id: a->Ref_reference, error: no_definition_message() },
        ),
        !(a is Ref) ==> resolved_from(a, d) == Ok::<AttributeView, ErrorView>(a),
{
}

/// The first of two optional texts that is set.
fn first_text(a: &Option<String>, b: &Option<String>) -> (r: Option<String>)
    ensures
        opt_text(r) == if a is Some {
            opt_text(*a)
        } else {
            opt_text(*b)
        },
{
    if a.is_some() {
        clone_opt_text(a)
    } else {
        clone_opt_text(b)
    }
}

impl Attribute {
    /// Resolves the attribute against the semantic convention definition it
    /// refers to, if any.
    pub fn resolve_from(&self, sem_conv_attr: Option<&AttributeSpec>) -> (r: Result<Attribute, Error>)
        ensures
            match resolved_from(
                self@,
                match sem_conv_attr {
                    Some(d) => Some(d@),
                    None => None,
                },
            ) {
                Ok(v) => r matches Ok(a) && a@ == v,
                Err(e) => r matches Err(x) && x@ == e,
            },
    {
        match self {
            Attribute::Ref {
                reference,
                brief,
                examples,
                tag,
                requirement_level,
                sampling_relevant,
                note,
                stability,
                deprecated,
                tags,
                value,
            } => match sem_conv_attr {
                Some(
                    AttributeSpec::Id {
                        id,
                        attr_type,
                        brief: d_brief,
                        examples: d_examples,
                        tag: d_tag,
                        requirement_level: d_level,
                        sampling_relevant: d_sampling,
                        note: d_note,
                        stability: d_stability,
                        deprecated: d_deprecated,
                        value: d_value,
                    },
                ) => Ok(
                    Attribute::Id {
                        id: id.clone(),
                        attr_type: attr_type.clone(),
                        brief: match brief {
                            Some(b) => b.clone(),
                            None => d_brief.clone(),
                        },
                        examples: if examples.is_some() {
                            clone_opt_examples(examples)
                        } else {
                            clone_opt_examples(d_examples)
                        },
                        tag: first_text(tag, d_tag),
                        requirement_level: if requirement_level.is_some() {
                            clone_opt_level(requirement_level)
                        } else {
                            clone_opt_level(d_level)
                        },
                        sampling_relevant: if sampling_relevant.is_some() {
                            *sampling_relevant
                        } else {
                            *d_sampling
                        },
                        note: first_text(note, d_note),
                        stability: if stability.is_some() {
                            *stability
                        } else {
                            *d_stability
                        },
                        deprecated: first_text(deprecated, d_deprecated),
                        tags: clone_opt_tags(tags),
                        value: if value.is_some() {
                            clone_opt_value(value)
                        } else {
                            clone_opt_value(d_value)
                        },
                    },
                ),
                _ => Err(
                    Error::InvalidAttribute {
                        id: reference.clone(),
                        error: "Attribute reference not found in the semantic convention catalog".to_owned(),
                    },
                ),
            },
            _ => Ok(self.clone()),
        }
    }
}

} // verus!
