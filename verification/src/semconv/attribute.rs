//! Attribute specification.
use vstd::prelude::*;
use crate::semconv::stability::Stability;

verus! {

/// The content of an optional text.
pub open spec fn opt_text(o: Option<String>) -> Option<Seq<char>> {
    match o {
        Some(s) => Some(s@),
        None => None,
    }
}

/// A copy of an optional text.
pub fn clone_opt_text(o: &Option<String>) -> (r: Option<String>)
    ensures
        opt_text(r) == opt_text(*o),
{
    match o {
        Some(s) => Some(s.clone()),
        None => None,
    }
}

/// The contents of a sequence of texts.
pub open spec fn texts(s: Seq<String>) -> Seq<Seq<char>> {
    s.map_values(|t: String| t@)
}

/// A copy of a vector of texts.
pub fn clone_texts(v: &Vec<String>) -> (r: Vec<String>)
    ensures
        texts(r@) == texts(v@),
{
    let mut out: Vec<String> = Vec::new();
    let mut i: usize = 0;
    while i < v.len()
        invariant
            i <= v@.len(),
            out@.len() == i,
            forall|j: int| 0 <= j < i ==> (#[trigger] out@[j])@ == v@[j]@,
        decreases v@.len() - i,
    {
        out.push(v[i].clone());
        i = i + 1;
    }
    proof {
        assert(texts(out@) =~= texts(v@));
    }
    out
}

/// A copy of a vector of copyable values.
pub fn clone_copies<T: Copy>(v: &Vec<T>) -> (r: Vec<T>)
    ensures
        r@ == v@,
{
    let mut out: Vec<T> = Vec::new();
    let mut i: usize = 0;
    while i < v.len()
        invariant
            i <= v@.len(),
            out@ == v@.subrange(0, i as int),
        decreases v@.len() - i,
    {
        out.push(v[i]);
        proof {
            assert(out@ =~= v@.subrange(0, i + 1));
        }
        i = i + 1;
    }
    proof {
        assert(v@.subrange(0, v@.len() as int) == v@);
    }
    out
}

/// The different types of basic attributes.
#[derive(Clone, Copy, Debug, PartialEq, Eq, Structural)]
pub enum BasicAttributeType {
    /// A boolean attribute.
    Boolean,
    /// A integer attribute.
    Int,
    /// A double attribute.
    Double,
    /// A string attribute.
    String,
    /// Aa array of strings attribute.
    Strings,
}

/// The different types of values. A double is held as the bits of its
/// IEEE 754 binary64 encoding.
pub enum Value {
    /// A integer value.
    Int(i64),
    /// A double value (its bits).
    Double(u64),
    /// A string value.
    String(String),
}

/// The content of a value.
pub enum ValueView {
    /// A integer value.
    Int(i64),
    /// A double value (its bits).
    Double(u64),
    /// A string value.
    String(Seq<char>),
}

impl View for Value {
    type V = ValueView;

    open spec fn view(&self) -> ValueView {
        match self {
            Value::Int(i) => ValueView::Int(*i),
            Value::Double(d) => ValueView::Double(*d),
            Value::String(s) => ValueView::String(s@),
        }
    }
}

impl Clone for Value {
    fn clone(&self) -> (r: Self)
        ensures
            r@ == self@,
    {
        match self {
            Value::Int(i) => Value::Int(*i),
            Value::Double(d) => Value::Double(*d),
            Value::String(s) => Value::String(s.clone()),
        }
    }
}

/// The content of an optional value.
pub open spec fn opt_value(o: Option<Value>) -> Option<ValueView> {
    match o {
        Some(v) => Some(v@),
        None => None,
    }
}

/// A copy of an optional value.
pub fn clone_opt_value(o: &Option<Value>) -> (r: Option<Value>)
    ensures
        opt_value(r) == opt_value(*o),
{
    match o {
        Some(v) => Some(v.clone()),
        None => None,
    }
}

/// A custom type member.
pub struct CustomTypeMember {
    /// The id of the member.
    pub id: String,
    /// The value of the member.
    pub value: Value,
    /// The brief of the member.
    pub brief: Option<String>,
}

/// The content of a custom type member.
pub struct CustomTypeMemberView {
    /// The id of the member.
    pub id: Seq<char>,
    /// The value of the member.
    pub value: ValueView,
    /// The brief of the member.
    pub brief: Option<Seq<char>>,
}

impl View for CustomTypeMember {
    type V = CustomTypeMemberView;

    open spec fn view(&self) -> CustomTypeMemberView {
        CustomTypeMemberView { id: self.id@, value: self.value@, brief: opt_text(self.brief) }
    }
}

impl Clone for CustomTypeMember {
    fn clone(&self) -> (r: Self)
        ensures
            r@ == self@,
    {
        CustomTypeMember {
            id: self.id.clone(),
            value: self.value.clone(),
            brief: clone_opt_text(&self.brief),
        }
    }
}

/// The contents of a sequence of members.
pub open spec fn members_view(s: Seq<CustomTypeMember>) -> Seq<CustomTypeMemberView> {
    s.map_values(|m: CustomTypeMember| m@)
}

/// The different types of attributes.
pub enum AttributeType {
    /// A basic attribute type.
    Basic(BasicAttributeType),
    /// A custom attribute type.
    Custom {
        /// A flag indicating whether custom values are allowed.
        allow_custom_values: bool,
        /// The members of the custom type.
        members: Vec<CustomTypeMember>,
    },
}

/// The content of an attribute type.
pub enum AttributeTypeView {
    /// A basic attribute type.
    Basic(BasicAttributeType),
    /// A custom attribute type.
    Custom {
        /// A flag indicating whether custom values are allowed.
        allow_custom_values: bool,
        /// The members of the custom type.
        members: Seq<CustomTypeMemberView>,
    },
}

impl View for AttributeType {
    type V = AttributeTypeView;

    open spec fn view(&self) -> AttributeTypeView {
        match self {
            AttributeType::Basic(b) => AttributeTypeView::Basic(*b),
            AttributeType::Custom { allow_custom_values, members } => AttributeTypeView::Custom {
                allow_custom_values: *allow_custom_values,
                members: members_view(members@),
            },
        }
    }
}

impl Clone for AttributeType {
    fn clone(&self) -> (r: Self)
        ensures
            r@ == self@,
    {
        match self {
            AttributeType::Basic(b) => AttributeType::Basic(*b),
            AttributeType::Custom { allow_custom_values, members } => {
                let mut out: Vec<CustomTypeMember> = Vec::new();
                let mut i: usize = 0;
                while i < members.len()
                    invariant
                        i <= members@.len(),
                        out@.len() == i,
                        forall|j: int| 0 <= j < i ==> (#[trigger] out@[j])@ == members@[j]@,
                    decreases members@.len() - i,
                {
                    out.push(members[i].clone());
                    i = i + 1;
                }
                proof {
                    assert(members_view(out@) =~= members_view(members@));
                }
                AttributeType::Custom { allow_custom_values: *allow_custom_values, members: out }
            },
        }
    }
}

/// The different types of examples. Doubles are held as the bits of their
/// IEEE 754 binary64 encoding.
pub enum Examples {
    /// A integer example.
    Int(i64),
    /// A double example (its bits).
    Double(u64),
    /// A string example.
    String(String),
    /// A array of integers example.
    Ints(Vec<i64>),
    /// A array of doubles example (their bits).
    Doubles(Vec<u64>),
    /// A array of strings example.
    Strings(Vec<String>),
}

/// The content of examples.
pub enum ExamplesView {
    /// A integer example.
    Int(i64),
    /// A double example (its bits).
    Double(u64),
    /// A string example.
    String(Seq<char>),
    /// A array of integers example.
    Ints(Seq<i64>),
    /// A array of doubles example (their bits).
    Doubles(Seq<u64>),
    /// A array of strings example.
    Strings(Seq<Seq<char>>),
}

impl View for Examples {
    type V = ExamplesView;

    open spec fn view(&self) -> ExamplesView {
        match self {
            Examples::Int(i) => ExamplesView::Int(*i),
            Examples::Double(d) => ExamplesView::Double(*d),
            Examples::String(s) => ExamplesView::String(s@),
            Examples::Ints(v) => ExamplesView::Ints(v@),
            Examples::Doubles(v) => ExamplesView::Doubles(v@),
            Examples::Strings(v) => ExamplesView::Strings(texts(v@)),
        }
    }
}

impl Clone for Examples {
    fn clone(&self) -> (r: Self)
        ensures
            r@ == self@,
    {
        match self {
            Examples::Int(i) => Examples::Int(*i),
            Examples::Double(d) => Examples::Double(*d),
            Examples::String(s) => Examples::String(s.clone()),
            Examples::Ints(v) => Examples::Ints(clone_copies(v)),
            Examples::Doubles(v) => Examples::Doubles(clone_copies(v)),
            Examples::Strings(v) => Examples::Strings(clone_texts(v)),
        }
    }
}

/// The content of optional examples.
pub open spec fn opt_examples(o: Option<Examples>) -> Option<ExamplesView> {
    match o {
        Some(v) => Some(v@),
        None => None,
    }
}

/// A copy of optional examples.
pub fn clone_opt_examples(o: &Option<Examples>) -> (r: Option<Examples>)
    ensures
        opt_examples(r) == opt_examples(*o),
{
    match o {
        Some(v) => Some(v.clone()),
        None => None,
    }
}

/// The different types of basic requirement levels.
#[derive(Clone, Copy, Debug, PartialEq, Eq, Structural)]
pub enum BasicRequirementLevel {
    /// A required requirement level.
    Required,
    /// An optional requirement level.
    Recommended,
    /// An opt-in requirement level.
    OptIn,
}

/// The different requirement levels.
pub enum RequirementLevel {
    /// A basic requirement level.
    Basic(BasicRequirementLevel),
    /// A conditional requirement level.
    ConditionallyRequired {
        /// The description of the condition.
        text: String,
    },
    /// A recommended requirement level.
    Recommended {
        /// The description of the recommendation.
        text: String,
    },
}

/// The content of a requirement level.
pub enum RequirementLevelView {
    /// A basic requirement level.
    Basic(BasicRequirementLevel),
    /// A conditional requirement level.
    ConditionallyRequired {
        /// The description of the condition.
        text: Seq<char>,
    },
    /// A recommended requirement level.
    Recommended {
        /// The description of the recommendation.
        text: Seq<char>,
    },
}

impl View for RequirementLevel {
    type V = RequirementLevelView;

    open spec fn view(&self) -> RequirementLevelView {
        match self {
            RequirementLevel::Basic(b) => RequirementLevelView::Basic(*b),
            RequirementLevel::ConditionallyRequired { text } => RequirementLevelView::ConditionallyRequired {
                text: text@,
            },
            RequirementLevel::Recommended { text } => RequirementLevelView::Recommended { text: text@ },
        }
    }
}

impl Clone for RequirementLevel {
    fn clone(&self) -> (r: Self)
        ensures
            r@ == self@,
    {
        match self {
            RequirementLevel::Basic(b) => RequirementLevel::Basic(*b),
            RequirementLevel::ConditionallyRequired { text } => RequirementLevel::ConditionallyRequired {
                text: text.clone(),
            },
            RequirementLevel::Recommended { text } => RequirementLevel::Recommended { text: text.clone() },
        }
    }
}

/// The content of an optional requirement level.
pub open spec fn opt_level(o: Option<RequirementLevel>) -> Option<RequirementLevelView> {
    match o {
        Some(v) => Some(v@),
        None => None,
    }
}

/// A copy of an optional requirement level.
pub fn clone_opt_level(o: &Option<RequirementLevel>) -> (r: Option<RequirementLevel>)
    ensures
        opt_level(r) == opt_level(*o),
{
    match o {
        Some(v) => Some(v.clone()),
        None => None,
    }
}

/// An attribute specification.
#[allow(inconsistent_fields)]
pub enum Attribute {
    /// Reference to another attribute.
    Ref {
        /// The reference to the attribute.
        reference: String,
        /// The brief of the attribute.
        brief: Option<String>,
        /// A collection of examples of the attribute.
        examples: Option<Examples>,
        /// An optional tag associated with the attribute.
        tag: Option<String>,
        /// The requirement level of the attribute.
        requirement_level: Option<RequirementLevel>,
        /// A flag indicating whether the attribute is relevant for sampling.
        sampling_relevant: Option<bool>,
        /// The note of the attribute.
        note: Option<String>,
        /// Specifies the stability of the attribute.
        stability: Option<Stability>,
        /// Specifies if the attribute is deprecated.
        deprecated: Option<String>,
        /// The value of the attribute (only used in a telemetry schema specification).
        value: Option<Value>,
    },
    /// Attribute definition.
    Id {
        /// The id of the attribute.
        id: String,
        /// The type of the attribute.
        attr_type: AttributeType,
        /// The brief of the attribute.
        brief: String,
        /// A collection of examples of the attribute.
        examples: Option<Examples>,
        /// An optional tag associated with the attribute.
        tag: Option<String>,
        /// The requirement level of the attribute.
        requirement_level: Option<RequirementLevel>,
        /// A flag indicating whether the attribute is relevant for sampling.
        sampling_relevant: Option<bool>,
        /// The note of the attribute.
        note: Option<String>,
        /// Specifies the stability of the attribute.
        stability: Option<Stability>,
        /// Specifies if the attribute is deprecated.
        deprecated: Option<String>,
        /// The value of the attribute (only used in a telemetry schema specification).
        value: Option<Value>,
    },
}

/// The content of an attribute specification.
#[allow(inconsistent_fields)]
pub enum AttributeView {
    /// Reference to another attribute.
    Ref {
        /// The reference to the attribute.
        reference: Seq<char>,
        /// The brief of the attribute.
        brief: Option<Seq<char>>,
        /// A collection of examples of the attribute.
        examples: Option<ExamplesView>,
        /// An optional tag associated with the attribute.
        tag: Option<Seq<char>>,
        /// The requirement level of the attribute.
        requirement_level: Option<RequirementLevelView>,
        /// A flag indicating whether the attribute is relevant for sampling.
        sampling_relevant: Option<bool>,
        /// The note of the attribute.
        note: Option<Seq<char>>,
        /// Specifies the stability of the attribute.
        stability: Option<Stability>,
        /// Specifies if the attribute is deprecated.
        deprecated: Option<Seq<char>>,
        /// The value of the attribute.
        value: Option<ValueView>,
    },
    /// Attribute definition.
    Id {
        /// The id of the attribute.
        id: Seq<char>,
        /// The type of the attribute.
        attr_type: AttributeTypeView,
        /// The brief of the attribute.
        brief: Seq<char>,
        /// A collection of examples of the attribute.
        examples: Option<ExamplesView>,
        /// An optional tag associated with the attribute.
        tag: Option<Seq<char>>,
        /// The requirement level of the attribute.
        requirement_level: Option<RequirementLevelView>,
        /// A flag indicating whether the attribute is relevant for sampling.
        sampling_relevant: Option<bool>,
        /// The note of the attribute.
        note: Option<Seq<char>>,
        /// Specifies the stability of the attribute.
        stability: Option<Stability>,
        /// Specifies if the attribute is deprecated.
        deprecated: Option<Seq<char>>,
        /// The value of the attribute.
        value: Option<ValueView>,
    },
}

impl View for Attribute {
    type V = AttributeView;

    open spec fn view(&self) -> AttributeView {
        match self {
            Attribute::Ref {
                reference,
                brief,
                examples,
                tag,
                requirement_level,
                sampling_relevant,
                note,
                stability,
                deprecated,
                value,
            } => AttributeView::Ref {
                reference: reference@,
                brief: opt_text(*brief),
                examples: opt_examples(*examples),
                tag: opt_text(*tag),
                requirement_level: opt_level(*requirement_level),
                sampling_relevant: *sampling_relevant,
                note: opt_text(*note),
                stability: *stability,
                deprecated: opt_text(*deprecated),
                value: opt_value(*value),
            },
            Attribute::Id {
                id,
                attr_type,
                brief,
                examples,
                tag,
                requirement_level,
                sampling_relevant,
                note,
                stability,
                deprecated,
                value,
            } => AttributeView::Id {
                id: id@,
                attr_type: attr_type@,
                brief: brief@,
                examples: opt_examples(*examples),
                tag: opt_text(*tag),
                requirement_level: opt_level(*requirement_level),
                sampling_relevant: *sampling_relevant,
                note: opt_text(*note),
                stability: *stability,
                deprecated: opt_text(*deprecated),
                value: opt_value(*value),
            },
        }
    }
}

impl Clone for Attribute {
    fn clone(&self) -> (r: Self)
        ensures
            r@ == self@,
    {
        match self {
            Attribute::Ref {
                reference,
                brief,
                examples,
                tag,
                requirement_level,
                sampling_relevant,
                note,
                stability,
                deprecated,
                value,
            } => Attribute::Ref {
                reference: reference.clone(),
                brief: clone_opt_text(brief),
                examples: clone_opt_examples(examples),
                tag: clone_opt_text(tag),
                requirement_level: clone_opt_level(requirement_level),
                sampling_relevant: *sampling_relevant,
                note: clone_opt_text(note),
                stability: *stability,
                deprecated: clone_opt_text(deprecated),
                value: clone_opt_value(value),
            },
            Attribute::Id {
                id,
                attr_type,
                brief,
                examples,
                tag,
                requirement_level,
                sampling_relevant,
                note,
                stability,
                deprecated,
                value,
            } => Attribute::Id {
                id: id.clone(),
                attr_type: attr_type.clone(),
                brief: brief.clone(),
                examples: clone_opt_examples(examples),
                tag: clone_opt_text(tag),
                requirement_level: clone_opt_level(requirement_level),
                sampling_relevant: *sampling_relevant,
                note: clone_opt_text(note),
                stability: *stability,
                deprecated: clone_opt_text(deprecated),
                value: clone_opt_value(value),
            },
        }
    }
}

/// The contents of a sequence of attributes.
pub open spec fn attrs_view(s: Seq<Attribute>) -> Seq<AttributeView> {
    s.map_values(|a: Attribute| a@)
}

/// A copy of a vector of attributes.
pub fn clone_attributes(v: &Vec<Attribute>) -> (r: Vec<Attribute>)
    ensures
        attrs_view(r@) == attrs_view(v@),
{
    let mut out: Vec<Attribute> = Vec::new();
    let mut i: usize = 0;
    while i < v.len()
        invariant
            i <= v@.len(),
            out@.len() == i,
            forall|j: int| 0 <= j < i ==> (#[trigger] out@[j])@ == v@[j]@,
        decreases v@.len() - i,
    {
        out.push(v[i].clone());
        i = i + 1;
    }
    proof {
        assert(attrs_view(out@) =~= attrs_view(v@));
    }
    out
}

/// The id of an attribute specification: the attribute it refers to, or
/// the one it defines.
pub open spec fn attr_id(a: AttributeView) -> Seq<char> {
    match a {
        AttributeView::Ref { reference, .. } => reference,
        AttributeView::Id { id, .. } => id,
    }
}

impl Attribute {
    /// The id of the attribute: the attribute it refers to, or the one it
    /// defines.
    pub fn id(&self) -> (r: String)
        ensures
            r@ == attr_id(self@),
    {
        match self {
            Attribute::Ref { reference, .. } => reference.clone(),
            Attribute::Id { id, .. } => id.clone(),
        }
    }
}

} // verus!
