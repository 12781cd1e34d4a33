//! Testers that templates use.
use vstd::prelude::*;
use crate::text::same_text;

verus! {

/// What the requirement filters and testers read of a template value.
pub enum LevelOf {
    /// There is no value.
    Missing,
    /// The value is not an object.
    NotAnObject,
    /// The value is an object without a text requirement level.
    NoLevel,
    /// The value is an object with this text requirement level.
    Level(String),
}

/// The content of what the requirement filters and testers read.
pub enum LevelOfView {
    /// There is no value.
    Missing,
    /// The value is not an object.
    NotAnObject,
    /// The value is an object without a text requirement level.
    NoLevel,
    /// The value is an object with this text requirement level.
    Level(Seq<char>),
}

impl View for LevelOf {
    type V = LevelOfView;

    open spec fn view(&self) -> LevelOfView {
        match self {
            LevelOf::Missing => LevelOfView::Missing,
            LevelOf::NotAnObject => LevelOfView::NotAnObject,
            LevelOf::NoLevel => LevelOfView::NoLevel,
            LevelOf::Level(l) => LevelOfView::Level(l@),
        }
    }
}

/// Whether a value is an object whose requirement level is `required`.
pub open spec fn required_object(v: LevelOfView) -> bool {
    v matches LevelOfView::Level(l) && l == "required"@
}

/// Tests whether a value is an attribute whose requirement level is
/// `required`.
pub fn is_required(value: &LevelOf) -> (r: bool)
    ensures
        r == required_object(value@),
{
    match value {
        LevelOf::Level(req_level) => same_text(req_level, "required"),
        _ => false,
    }
}

/// Tests whether a value is not an attribute whose requirement level is
/// `required`.
pub fn is_not_required(value: &LevelOf) -> (r: bool)
    ensures
        r == !required_object(value@),
{
    match value {
        LevelOf::Level(req_level) => !same_text(req_level, "required"),
        _ => true,
    }
}

/// On an attribute with a requirement level, the `required` tester holds
/// exactly when the `required` filter keeps it.
pub proof fn lemma_tester_agrees_with_filter(v: LevelOfView)
    ensures
        v is Level ==> required_object(v) == crate::template::filters::keeps_required(v),
{
}

} // verus!
