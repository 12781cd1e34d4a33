//! Resolved attribute definitions, and the references to them.
use vstd::prelude::*;
use crate::resolved::catalog::Stability;
use crate::resolved::value::{Value, ValueView, clone_opt_value, opt_value, same_opt_value, same_value};
use crate::semconv::attribute::{Attribute as AttributeSpec, AttributeView as AttributeSpecView, clone_texts, texts};
use crate::semconv::attribute::{clone_opt_text, opt_text};
use crate::tags::Tags;

verus! {

/// A reference to an attribute of the catalog: its position there.
#[derive(Clone, Copy, Debug, PartialEq, Eq, Structural, Hash)]
pub struct AttributeRef(pub u32);

/// An attribute whose references are not resolved yet.
pub struct UnresolvedAttribute {
    /// The attribute specification.
    pub spec: AttributeSpec,
}

/// The type of an attribute.
pub enum AttributeType {
    /// A boolean attribute.
    Boolean,
    /// An integer attribute.
    Int,
    /// A double attribute.
    Double,
    /// A string attribute.
    String,
    /// An array of strings attribute.
    Strings,
    /// An array of integers attribute.
    Ints,
    /// An array of doubles attribute.
    Doubles,
    /// An array of booleans attribute.
    Booleans,
    /// A boolean template attribute.
    TemplateBoolean,
    /// An integer template attribute.
    TemplateInt,
    /// A double template attribute.
    TemplateDouble,
    /// A string template attribute.
    TemplateString,
    /// An array of strings template attribute.
    TemplateStrings,
    /// An array of integers template attribute.
    TemplateInts,
    /// An array of doubles template attribute.
    TemplateDoubles,
    /// An array of booleans template attribute.
    TemplateBooleans,
    /// An enum attribute.
    Enum {
        /// Whether values outside the members are allowed.
        allow_custom_values: bool,
        /// The members of the enum.
        members: Vec<EnumEntries>,
    },
}

/// A member of an enum attribute type.
pub struct EnumEntries {
    /// The id of the member.
    pub id: String,
    /// The value of the member.
    pub value: Value,
    /// A brief description of the member.
    pub brief: Option<String>,
    /// A note on the member.
    pub note: Option<String>,
}

/// An example of the values of an attribute.
pub enum Example {
    /// A boolean example.
    Bool {
        /// The value.
        value: bool,
    },
    /// An integer example.
    Int {
        /// The value.
        value: i64,
    },
    /// A double example, by the bits of its encoding.
    Double {
        /// The value.
        value: u64,
    },
    /// A string example.
    String {
        /// The value.
        value: String,
    },
    /// Integer examples.
    Ints {
        /// The values.
        values: Vec<i64>,
    },
    /// Double examples, by the bits of their encoding.
    Doubles {
        /// The values.
        values: Vec<u64>,
    },
    /// Boolean examples.
    Bools {
        /// The values.
        values: Vec<bool>,
    },
    /// String examples.
    Strings {
        /// The values.
        values: Vec<String>,
    },
}

/// The requirement level of an attribute.
pub enum RequirementLevel {
    /// The attribute is required.
    Required,
    /// The attribute is recommended, maybe with a condition.
    Recommended {
        /// The condition.
        text: Option<String>,
    },
    /// The attribute is required under a condition.
    ConditionallyRequired {
        /// The condition.
        text: String,
    },
    /// The attribute is opt-in.
    OptIn,
}

/// A resolved attribute definition.
pub struct Attribute {
    /// The name of the attribute.
    pub name: String,
    /// The type of the attribute.
    pub attr_type: AttributeType,
    /// A brief description of the attribute.
    pub brief: String,
    /// Examples of values of the attribute.
    pub examples: Option<Example>,
    /// Associates a tag to the attribute.
    pub tag: Option<String>,
    /// Specifies if the attribute is mandatory.
    pub requirement_level: Option<RequirementLevel>,
    /// Specifies if the attribute is (especially) relevant for sampling.
    pub sampling_relevant: Option<bool>,
    /// A more elaborate description of the attribute.
    pub note: Option<String>,
    /// The stability of the attribute.
    pub stability: Option<Stability>,
    /// Why the attribute is deprecated, if it is.
    pub deprecated: Option<String>,
    /// A set of tags for the attribute.
    pub tags: Option<Tags>,
    /// The value of the attribute.
    pub value: Option<Value>,
}

/// The content of an enum member.
pub struct EnumEntriesView {
    /// The id of the member.
    pub id: Seq<char>,
    /// The value of the member.
    pub value: ValueView,
    /// A brief description.
    pub brief: Option<Seq<char>>,
    /// A note.
    pub note: Option<Seq<char>>,
}

/// The content of an attribute type.
pub enum AttributeTypeView {
    /// A boolean attribute.
    Boolean,
    /// An integer attribute.
    Int,
    /// A double attribute.
    Double,
    /// A string attribute.
    String,
    /// An array of strings attribute.
    Strings,
    /// An array of integers attribute.
    Ints,
    /// An array of doubles attribute.
    Doubles,
    /// An array of booleans attribute.
    Booleans,
    /// A boolean template attribute.
    TemplateBoolean,
    /// An integer template attribute.
    TemplateInt,
    /// A double template attribute.
    TemplateDouble,
    /// A string template attribute.
    TemplateString,
    /// An array of strings template attribute.
    TemplateStrings,
    /// An array of integers template attribute.
    TemplateInts,
    /// An array of doubles template attribute.
    TemplateDoubles,
    /// An array of booleans template attribute.
    TemplateBooleans,
    /// An enum attribute.
    Enum { allow_custom_values: bool, members: Seq<EnumEntriesView> },
}

/// The content of an example.
pub enum ExampleView {
    /// A boolean example.
    Bool(bool),
    /// An integer example.
    Int(i64),
    /// A double example.
    Double(u64),
    /// A string example.
    String(Seq<char>),
    /// Integer examples.
    Ints(Seq<i64>),
    /// Double examples.
    Doubles(Seq<u64>),
    /// Boolean examples.
    Bools(Seq<bool>),
    /// String examples.
    Strings(Seq<Seq<char>>),
}

/// The content of a requirement level.
pub enum RequirementLevelView {
    /// Required.
    Required,
    /// Recommended, maybe with a condition.
    Recommended(Option<Seq<char>>),
    /// Required under a condition.
    ConditionallyRequired(Seq<char>),
    /// Opt-in.
    OptIn,
}

/// The content of a resolved attribute.
pub struct AttributeView {
    /// The name.
    pub name: Seq<char>,
    /// The type.
    pub attr_type: AttributeTypeView,
    /// A brief description.
    pub brief: Seq<char>,
    /// Examples.
    pub examples: Option<ExampleView>,
    /// A tag.
    pub tag: Option<Seq<char>>,
    /// The requirement level.
    pub requirement_level: Option<RequirementLevelView>,
    /// Relevance for sampling.
    pub sampling_relevant: Option<bool>,
    /// A note.
    pub note: Option<Seq<char>>,
    /// The stability.
    pub stability: Option<Stability>,
    /// Why it is deprecated.
    pub deprecated: Option<Seq<char>>,
    /// The tags.
    pub tags: Option<Map<Seq<char>, Seq<char>>>,
    /// The value.
    pub value: Option<ValueView>,
}

impl View for EnumEntries {
    type V = EnumEntriesView;

    open spec fn view(&self) -> EnumEntriesView {
        EnumEntriesView {
            id: self.id@,
            value: self.value@,
            brief: opt_text(self.brief),
            note: opt_text(self.note),
        }
    }
}

/// The contents of a sequence of enum members.
pub open spec fn entries_view(s: Seq<EnumEntries>) -> Seq<EnumEntriesView> {
    s.map_values(|e: EnumEntries| e@)
}

impl View for AttributeType {
    type V = AttributeTypeView;

    open spec fn view(&self) -> AttributeTypeView {
        match self {
            AttributeType::Boolean => AttributeTypeView::Boolean,
            AttributeType::Int => AttributeTypeView::Int,
            AttributeType::Double => AttributeTypeView::Double,
            AttributeType::String => AttributeTypeView::String,
            AttributeType::Strings => AttributeTypeView::Strings,
            AttributeType::Ints => AttributeTypeView::Ints,
            AttributeType::Doubles => AttributeTypeView::Doubles,
            AttributeType::Booleans => AttributeTypeView::Booleans,
            AttributeType::TemplateBoolean => AttributeTypeView::TemplateBoolean,
            AttributeType::TemplateInt => AttributeTypeView::TemplateInt,
            AttributeType::TemplateDouble => AttributeTypeView::TemplateDouble,
            AttributeType::TemplateString => AttributeTypeView::TemplateString,
            AttributeType::TemplateStrings => AttributeTypeView::TemplateStrings,
            AttributeType::TemplateInts => AttributeTypeView::TemplateInts,
            AttributeType::TemplateDoubles => AttributeTypeView::TemplateDoubles,
            AttributeType::TemplateBooleans => AttributeTypeView::TemplateBooleans,
            AttributeType::Enum { allow_custom_values, members } => AttributeTypeView::Enum {
                allow_custom_values: *allow_custom_values,
                members: entries_view(members@),
            },
        }
    }
}

impl View for Example {
    type V = ExampleView;

    open spec fn view(&self) -> ExampleView {
        match self {
            Example::Bool { value } => ExampleView::Bool(*value),
            Example::Int { value } => ExampleView::Int(*value),
            Example::Double { value } => ExampleView::Double(*value),
            Example::String { value } => ExampleView::String(value@),
            Example::Ints { values } => ExampleView::Ints(values@),
            Example::Doubles { values } => ExampleView::Doubles(values@),
            Example::Bools { values } => ExampleView::Bools(values@),
            Example::Strings { values } => ExampleView::Strings(texts(values@)),
        }
    }
}

impl View for RequirementLevel {
    type V = RequirementLevelView;

    open spec fn view(&self) -> RequirementLevelView {
        match self {
            RequirementLevel::Required => RequirementLevelView::Required,
            RequirementLevel::Recommended { text } => RequirementLevelView::Recommended(opt_text(*text)),
            RequirementLevel::ConditionallyRequired { text } => RequirementLevelView::ConditionallyRequired(
                text@,
            ),
            RequirementLevel::OptIn => RequirementLevelView::OptIn,
        }
    }
}

/// The content of optional examples.
pub open spec fn opt_example(o: Option<Example>) -> Option<ExampleView> {
    match o {
        Some(e) => Some(e@),
        None => None,
    }
}

/// The content of an optional requirement level.
pub open spec fn opt_level(o: Option<RequirementLevel>) -> Option<RequirementLevelView> {
    match o {
        Some(l) => Some(l@),
        None => None,
    }
}

/// The content of optional tags.
pub open spec fn opt_tags(o: Option<Tags>) -> Option<Map<Seq<char>, Seq<char>>> {
    match o {
        Some(t) => Some(t@),
        None => None,
    }
}

impl View for Attribute {
    type V = AttributeView;

    open spec fn view(&self) -> AttributeView {
        AttributeView {
            name: self.name@,
            attr_type: self.attr_type@,
            brief: self.brief@,
            examples: opt_example(self.examples),
            tag: opt_text(self.tag),
            requirement_level: opt_level(self.requirement_level),
            sampling_relevant: self.sampling_relevant,
            note: opt_text(self.note),
            stability: self.stability,
            deprecated: opt_text(self.deprecated),
            tags: opt_tags(self.tags),
            value: opt_value(self.value),
        }
    }
}

/// The contents of a sequence of resolved attributes.
pub open spec fn resolved_view(s: Seq<Attribute>) -> Seq<AttributeView> {
    s.map_values(|a: Attribute| a@)
}

impl Clone for EnumEntries {
    fn clone(&self) -> (r: Self)
        ensures
            r@ == self@,
    {
        EnumEntries {
            id: self.id.clone(),
            value: self.value.clone(),
            brief: clone_opt_text(&self.brief),
            note: clone_opt_text(&self.note),
        }
    }
}

impl Clone for AttributeType {
    fn clone(&self) -> (r: Self)
        ensures
            r@ == self@,
    {
        match self {
            AttributeType::Boolean => AttributeType::Boolean,
            AttributeType::Int => AttributeType::Int,
            AttributeType::Double => AttributeType::Double,
            AttributeType::String => AttributeType::String,
            AttributeType::Strings => AttributeType::Strings,
            AttributeType::Ints => AttributeType::Ints,
            AttributeType::Doubles => AttributeType::Doubles,
            AttributeType::Booleans => AttributeType::Booleans,
            AttributeType::TemplateBoolean => AttributeType::TemplateBoolean,
            AttributeType::TemplateInt => AttributeType::TemplateInt,
            AttributeType::TemplateDouble => AttributeType::TemplateDouble,
            AttributeType::TemplateString => AttributeType::TemplateString,
            AttributeType::TemplateStrings => AttributeType::TemplateStrings,
            AttributeType::TemplateInts => AttributeType::TemplateInts,
            AttributeType::TemplateDoubles => AttributeType::TemplateDoubles,
            AttributeType::TemplateBooleans => AttributeType::TemplateBooleans,
            AttributeType::Enum { allow_custom_values, members } => {
                let mut out: Vec<EnumEntries> = Vec::new();
                let mut i: usize = 0;
                while i < members.len()
                    invariant
                        i <= members@.len(),
                        out@.len() == i,
                        forall|j: int| 0 <= j < i ==> (#[trigger] out@[j])@ == members@[j]@,
                    decreases members@.len() - i,
                {
                    out.push(members[i].clone());
                    i = i + 1;
                }
                proof {
                    assert(entries_view(out@) =~= entries_view(members@));
                }
                AttributeType::Enum { allow_custom_values: *allow_custom_values, members: out }
            },
        }
    }
}

/// A copy of a vector of plain values.
fn clone_plain<T: Copy>(v: &Vec<T>) -> (r: Vec<T>)
    ensures
        r@ == v@,
{
    let mut out: Vec<T> = Vec::new();
    let mut i: usize = 0;
    while i < v.len()
        invariant
            i <= v@.len(),
            out@ == v@.subrange(0, i as int),
        decreases v@.len() - i,
    {
        out.push(v[i]);
        proof {
            assert(out@ =~= v@.subrange(0, i + 1));
        }
        i = i + 1;
    }
    proof {
        assert(v@.subrange(0, v@.len() as int) == v@);
    }
    out
}

impl Clone for Example {
    fn clone(&self) -> (r: Self)
        ensures
            r@ == self@,
    {
        match self {
            Example::Bool { value } => Example::Bool { value: *value },
            Example::Int { value } => Example::Int { value: *value },
            Example::Double { value } => Example::Double { value: *value },
            Example::String { value } => Example::String { value: value.clone() },
            Example::Ints { values } => Example::Ints { values: clone_plain(values) },
            Example::Doubles { values } => Example::Doubles { values: clone_plain(values) },
            Example::Bools { values } => Example::Bools { values: clone_plain(values) },
            Example::Strings { values } => Example::Strings { values: clone_texts(values) },
        }
    }
}

impl Clone for RequirementLevel {
    fn clone(&self) -> (r: Self)
        ensures
            r@ == self@,
    {
        match self {
            RequirementLevel::Required => RequirementLevel::Required,
            RequirementLevel::Recommended { text } => RequirementLevel::Recommended {
                text: clone_opt_text(text),
            },
            RequirementLevel::ConditionallyRequired { text } => RequirementLevel::ConditionallyRequired {
                text: text.clone(),
            },
            RequirementLevel::OptIn => RequirementLevel::OptIn,
        }
    }
}

/// A copy of optional examples.
pub fn clone_opt_example(o: &Option<Example>) -> (r: Option<Example>)
    ensures
        opt_example(r) == opt_example(*o),
{
    match o {
        Some(e) => Some(e.clone()),
        None => None,
    }
}

/// A copy of an optional requirement level.
pub fn clone_opt_level(o: &Option<RequirementLevel>) -> (r: Option<RequirementLevel>)
    ensures
        opt_level(r) == opt_level(*o),
{
    match o {
        Some(l) => Some(l.clone()),
        None => None,
    }
}

/// A copy of optional tags.
pub fn clone_opt_tags(o: &Option<Tags>) -> (r: Option<Tags>)
    ensures
        opt_tags(r) == opt_tags(*o),
{
    match o {
        Some(t) => Some(t.clone()),
        None => None,
    }
}

impl Clone for Attribute {
    fn clone(&self) -> (r: Self)
        ensures
            r@ == self@,
    {
        Attribute {
            name: self.name.clone(),
            attr_type: self.attr_type.clone(),
            brief: self.brief.clone(),
            examples: clone_opt_example(&self.examples),
            tag: clone_opt_text(&self.tag),
            requirement_level: clone_opt_level(&self.requirement_level),
            sampling_relevant: self.sampling_relevant,
            note: clone_opt_text(&self.note),
            stability: self.stability,
            deprecated: clone_opt_text(&self.deprecated),
            tags: clone_opt_tags(&self.tags),
            value: clone_opt_value(&self.value),
        }
    }
}

/// Whether two optional texts are the same.
pub fn same_opt_text(a: &Option<String>, b: &Option<String>) -> (r: bool)
    ensures
        r == (opt_text(*a) == opt_text(*b)),
{
    match (a, b) {
        (Some(x), Some(y)) => *x == *y,
        (None, None) => true,
        _ => false,
    }
}

/// Whether two vectors of texts hold the same texts.
pub fn same_texts(a: &Vec<String>, b: &Vec<String>) -> (r: bool)
    ensures
        r == (texts(a@) == texts(b@)),
{
    if a.len() != b.len() {
        proof {
            assert(texts(a@).len() != texts(b@).len());
        }
        return false;
    }
    let mut i: usize = 0;
    while i < a.len()
        invariant
            i <= a@.len(),
            a@.len() == b@.len(),
            forall|j: int| 0 <= j < i ==> (#[trigger] a@[j])@ == b@[j]@,
        decreases a@.len() - i,
    {
        if a[i] != b[i] {
            proof {
                assert(texts(a@)[i as int] != texts(b@)[i as int]);
            }
            return false;
        }
        i = i + 1;
    }
    proof {
        assert(texts(a@) =~= texts(b@));
    }
    true
}

/// Whether two vectors of integers hold the same values.
fn same_ints(a: &Vec<i64>, b: &Vec<i64>) -> (r: bool)
    ensures
        r == (a@ == b@),
{
    let r = *a == *b;
    proof {
        if r {
            assert(a@ =~= b@);
        }
    }
    r
}

/// Whether two vectors of bit patterns hold the same values.
fn same_bits(a: &Vec<u64>, b: &Vec<u64>) -> (r: bool)
    ensures
        r == (a@ == b@),
{
    let r = *a == *b;
    proof {
        if r {
            assert(a@ =~= b@);
        }
    }
    r
}

/// Whether two vectors of booleans hold the same values.
fn same_bools(a: &Vec<bool>, b: &Vec<bool>) -> (r: bool)
    ensures
        r == (a@ == b@),
{
    let r = *a == *b;
    proof {
        if r {
            assert(a@ =~= b@);
        }
    }
    r
}

/// Whether two enum members are the same.
pub fn same_entry(a: &EnumEntries, b: &EnumEntries) -> (r: bool)
    ensures
        r == (a@ == b@),
{
    a.id == b.id && same_value(&a.value, &b.value) && same_opt_text(&a.brief, &b.brief) && same_opt_text(
        &a.note,
        &b.note,
    )
}

/// Whether two attribute types are the same.
pub fn same_attr_type(a: &AttributeType, b: &AttributeType) -> (r: bool)
    ensures
        r == (a@ == b@),
{
    match (a, b) {
        (
            AttributeType::Enum { allow_custom_values: ca, members: ma },
            AttributeType::Enum { allow_custom_values: cb, members: mb },
        ) => {
            if *ca != *cb {
                return false;
            }
            if ma.len() != mb.len() {
                proof {
                    assert(entries_view(ma@).len() == ma@.len());
                    assert(entries_view(mb@).len() == mb@.len());
                }
                return false;
            }
            let mut i: usize = 0;
            while i < ma.len()
                invariant
                    i <= ma@.len(),
                    ma@.len() == mb@.len(),
                    a@ == (AttributeTypeView::Enum { allow_custom_values: *ca, members: entries_view(ma@) }),
                    b@ == (AttributeTypeView::Enum { allow_custom_values: *cb, members: entries_view(mb@) }),
                    forall|j: int| 0 <= j < i ==> (#[trigger] ma@[j])@ == mb@[j]@,
                decreases ma@.len() - i,
            {
                if !same_entry(&ma[i], &mb[i]) {
                    proof {
                        assert(entries_view(ma@)[i as int] != entries_view(mb@)[i as int]);
                    }
                    return false;
                }
                i = i + 1;
            }
            proof {
                assert(entries_view(ma@) =~= entries_view(mb@));
            }
            true
        },
        (AttributeType::Enum { .. }, _) => false,
        (_, AttributeType::Enum { .. }) => false,
        (AttributeType::Boolean, AttributeType::Boolean) => true,
        (AttributeType::Int, AttributeType::Int) => true,
        (AttributeType::Double, AttributeType::Double) => true,
        (AttributeType::String, AttributeType::String) => true,
        (AttributeType::Strings, AttributeType::Strings) => true,
        (AttributeType::Ints, AttributeType::Ints) => true,
        (AttributeType::Doubles, AttributeType::Doubles) => true,
        (AttributeType::Booleans, AttributeType::Booleans) => true,
        (AttributeType::TemplateBoolean, AttributeType::TemplateBoolean) => true,
        (AttributeType::TemplateInt, AttributeType::TemplateInt) => true,
        (AttributeType::TemplateDouble, AttributeType::TemplateDouble) => true,
        (AttributeType::TemplateString, AttributeType::TemplateString) => true,
        (AttributeType::TemplateStrings, AttributeType::TemplateStrings) => true,
        (AttributeType::TemplateInts, AttributeType::TemplateInts) => true,
        (AttributeType::TemplateDoubles, AttributeType::TemplateDoubles) => true,
        (AttributeType::TemplateBooleans, AttributeType::TemplateBooleans) => true,
        _ => false,
    }
}

/// Whether two examples are the same.
pub fn same_example(a: &Example, b: &Example) -> (r: bool)
    ensures
        r == (a@ == b@),
{
    match (a, b) {
        (Example::Bool { value: x }, Example::Bool { value: y }) => *x == *y,
        (Example::Int { value: x }, Example::Int { value: y }) => *x == *y,
        (Example::Double { value: x }, Example::Double { value: y }) => *x == *y,
        (Example::String { value: x }, Example::String { value: y }) => *x == *y,
        (Example::Ints { values: x }, Example::Ints { values: y }) => same_ints(x, y),
        (Example::Doubles { values: x }, Example::Doubles { values: y }) => same_bits(x, y),
        (Example::Bools { values: x }, Example::Bools { values: y }) => same_bools(x, y),
        (Example::Strings { values: x }, Example::Strings { values: y }) => same_texts(x, y),
        _ => false,
    }
}

/// Whether two requirement levels are the same.
pub fn same_level(a: &RequirementLevel, b: &RequirementLevel) -> (r: bool)
    ensures
        r == (a@ == b@),
{
    match (a, b) {
        (RequirementLevel::Required, RequirementLevel::Required) => true,
        (RequirementLevel::Recommended { text: x }, RequirementLevel::Recommended { text: y }) => same_opt_text(
            x,
            y,
        ),
        (
            RequirementLevel::ConditionallyRequired { text: x },
            RequirementLevel::ConditionallyRequired { text: y },
        ) => *x == *y,
        (RequirementLevel::OptIn, RequirementLevel::OptIn) => true,
        _ => false,
    }
}

/// Whether two resolved attributes are the same.
pub fn same_attribute(a: &Attribute, b: &Attribute) -> (r: bool)
    ensures
        r == (a@ == b@),
{
    let examples = match (&a.examples, &b.examples) {
        (Some(x), Some(y)) => same_example(x, y),
        (None, None) => true,
        _ => false,
    };
    let level = match (&a.requirement_level, &b.requirement_level) {
        (Some(x), Some(y)) => same_level(x, y),
        (None, None) => true,
        _ => false,
    };
    let tags = match (&a.tags, &b.tags) {
        (Some(x), Some(y)) => x.same_tags(y),
        (None, None) => true,
        _ => false,
    };
    a.name == b.name && same_attr_type(&a.attr_type, &b.attr_type) && a.brief == b.brief && examples
        && same_opt_text(&a.tag, &b.tag) && level && a.sampling_relevant == b.sampling_relevant
        && same_opt_text(&a.note, &b.note) && a.stability == b.stability && same_opt_text(
        &a.deprecated,
        &b.deprecated,
    ) && tags && same_opt_value(&a.value, &b.value)
}

} // verus!
